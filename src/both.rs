//! A credential store and a key store together: a user logs in once with
//! a password and then works with a short-lived key.
use vstd::prelude::*;
use crate::DataError;
use crate::FileError;
use crate::pwd::{PwdAuth, cred_file_text, password_verdict};
use crate::key::{DEFAULT_KEY_LENGTH, DEFAULT_KEY_LIFE, KeyAuth, clock_now, default_key_chars, key_file_text, key_verdict, live_keys};
use crate::digest::salted_digest;

verus! {

/// One of the two stores.
#[derive(Debug, PartialEq, Eq, Structural, Clone, Copy)]
pub enum Store {
    Credentials,
    Keys,
}

/// What saving asks of the caller next: write the bytes to the path and
/// report how that went, or stop with the outcome of the whole save.
#[derive(Debug)]
pub enum SaveAction {
    Write(Store, String, Vec<u8>),
    Finished(Result<(), FileError>),
}

/// The outcome reported for the last write was a failure.
pub open spec fn write_failed(outcome: Option<(Store, Result<(), FileError>)>) -> bool {
    outcome matches Some((_, w)) && w is Err
}

/// A credential store and a key store, each with its own dirty flag.
pub struct BothAuth {
    pwdauth: PwdAuth,
    keyauth: KeyAuth,
}

impl BothAuth {
    /// The credential store.
    pub closed spec fn pwd(&self) -> PwdAuth {
        self.pwdauth
    }

    /// The key store.
    pub closed spec fn key(&self) -> KeyAuth {
        self.keyauth
    }

    /// Both stores are well formed.
    pub open spec fn wf(&self) -> bool {
        self.pwd().wf() && self.key().wf()
    }

    /// Empty stores saved to the two paths; neither dirty.
    pub fn blank(pwd_file: &str, key_file: &str) -> (a: Self)
        ensures
            a.wf(),
            a.pwd().users() == Map::<Seq<char>, Seq<u8>>::empty(),
            a.key().keys() == Map::<Seq<char>, (Seq<char>, u64)>::empty(),
            !a.pwd().dirty(),
            !a.key().dirty(),
            a.pwd().path() == pwd_file@,
            a.key().path() == key_file@,
            a.key().key_length() == DEFAULT_KEY_LENGTH,
            a.key().key_chars() == default_key_chars(),
            a.key().lifetime() == DEFAULT_KEY_LIFE,
    {
        BothAuth { pwdauth: PwdAuth::blank(pwd_file), keyauth: KeyAuth::blank(key_file) }
    }

    /// The two stores, put together.
    pub fn from_parts(pwdauth: PwdAuth, keyauth: KeyAuth) -> (a: Self)
        ensures
            a.pwd() == pwdauth,
            a.key() == keyauth,
    {
        BothAuth { pwdauth, keyauth }
    }

    /// The credential store.
    pub fn pwd_auth(&self) -> (r: &PwdAuth)
        ensures
            *r == self.pwd(),
    {
        &self.pwdauth
    }

    /// The key store.
    pub fn key_auth(&self) -> (r: &KeyAuth)
        ensures
            *r == self.key(),
    {
        &self.keyauth
    }

    /// As `PwdAuth::add_user`.
    pub fn add_user(&mut self, uname: &str, password: &str, salt: &[u8]) -> (r: Result<(), DataError>)
        requires
            old(self).wf(),
        ensures
            final(self).key() == old(self).key(),
            PwdAuth::add_step(old(self).pwd(), final(self).pwd(), uname@, salted_digest(password@, salt@), r),
    {
        self.pwdauth.add_user(uname, password, salt)
    }

    /// As `PwdAuth::delete_user`.
    pub fn delete_user(&mut self, uname: &str) -> (r: Result<(), DataError>)
        requires
            old(self).wf(),
        ensures
            final(self).key() == old(self).key(),
            PwdAuth::delete_step(old(self).pwd(), final(self).pwd(), uname@, r),
    {
        self.pwdauth.delete_user(uname)
    }

    /// As `PwdAuth::change_password`.
    pub fn change_password(&mut self, uname: &str, password: &str, salt: &[u8]) -> (r: Result<(), DataError>)
        requires
            old(self).wf(),
        ensures
            final(self).key() == old(self).key(),
            PwdAuth::change_step(old(self).pwd(), final(self).pwd(), uname@, salted_digest(password@, salt@), r),
    {
        self.pwdauth.change_password(uname, password, salt)
    }

    /// As `PwdAuth::check_password`.
    pub fn check_password(&self, uname: &str, password: &str, salt: &[u8]) -> (r: Result<(), DataError>)
        requires
            self.wf(),
        ensures
            r == password_verdict(self.pwd().users(), uname@, salted_digest(password@, salt@)),
    {
        self.pwdauth.check_password(uname, password, salt)
    }

    /// As `PwdAuth::user_exists`.
    pub fn user_exists(&self, uname: &str) -> (r: Result<(), DataError>)
        requires
            self.wf(),
        ensures
            r is Ok <==> self.pwd().users().contains_key(uname@),
            r matches Err(e) ==> e == DataError::NoSuchUser,
    {
        self.pwdauth.user_exists(uname)
    }

    /// As `KeyAuth::length`.
    pub fn length(&mut self, key_length: usize)
        ensures
            final(self).pwd() == old(self).pwd(),
            final(self).key().key_length() == key_length,
            final(self).key().keys() == old(self).key().keys(),
            final(self).key().wf() == old(self).key().wf(),
            final(self).key().dirty() == old(self).key().dirty(),
            final(self).key().path() == old(self).key().path(),
            final(self).key().key_chars() == old(self).key().key_chars(),
            final(self).key().lifetime() == old(self).key().lifetime(),
    {
        self.keyauth.length(key_length)
    }

    /// As `KeyAuth::chars`.
    pub fn chars(&mut self, key_chars: &str)
        ensures
            final(self).pwd() == old(self).pwd(),
            final(self).key().key_chars() == key_chars@,
            final(self).key().keys() == old(self).key().keys(),
            final(self).key().wf() == old(self).key().wf(),
            final(self).key().dirty() == old(self).key().dirty(),
            final(self).key().path() == old(self).key().path(),
            final(self).key().key_length() == old(self).key().key_length(),
            final(self).key().lifetime() == old(self).key().lifetime(),
    {
        self.keyauth.chars(key_chars)
    }

    /// As `KeyAuth::life`.
    pub fn life(&mut self, key_life: u64)
        ensures
            final(self).pwd() == old(self).pwd(),
            final(self).key().lifetime() == key_life,
            final(self).key().keys() == old(self).key().keys(),
            final(self).key().wf() == old(self).key().wf(),
            final(self).key().dirty() == old(self).key().dirty(),
            final(self).key().path() == old(self).key().path(),
            final(self).key().key_length() == old(self).key().key_length(),
            final(self).key().key_chars() == old(self).key().key_chars(),
    {
        self.keyauth.life(key_life)
    }

    /// As `KeyAuth::issue_key`.
    pub fn issue_key(&mut self, uname: &str) -> (key: String)
        requires
            old(self).wf(),
            old(self).key().key_chars().len() > 0,
        ensures
            final(self).pwd() == old(self).pwd(),
            exists|now: u64| KeyAuth::issue_step(old(self).key(), final(self).key(), uname@, now, key@),
    {
        let now = clock_now();
        let key = self.keyauth.issue_key_at(uname, now);
        assert(KeyAuth::issue_step(old(self).key(), self.key(), uname@, now, key@));
        key
    }

    /// As `KeyAuth::invalidate_key`.
    pub fn invalidate_key(&mut self, key: &str) -> (r: Result<(), DataError>)
        requires
            old(self).wf(),
        ensures
            final(self).pwd() == old(self).pwd(),
            exists|now: u64| KeyAuth::invalidate_step(old(self).key(), final(self).key(), key@, now, r),
    {
        let now = clock_now();
        let r = self.keyauth.invalidate_key_at(key, now);
        assert(KeyAuth::invalidate_step(old(self).key(), self.key(), key@, now, r));
        r
    }

    /// As `KeyAuth::remove_key`.
    pub fn remove_key(&mut self, key: &str) -> (r: Result<(), DataError>)
        requires
            old(self).wf(),
        ensures
            final(self).pwd() == old(self).pwd(),
            final(self).key().wf(),
            final(self).key().same_setup(&old(self).key()),
            match r {
                Ok(()) => old(self).key().keys().contains_key(key@)
                    && final(self).key().keys() == old(self).key().keys().remove(key@) && final(self).key().dirty(),
                Err(e) => e == DataError::NoSuchKey && !old(self).key().keys().contains_key(key@)
                    && final(self).key().keys() == old(self).key().keys()
                    && final(self).key().dirty() == old(self).key().dirty(),
            },
    {
        self.keyauth.remove_key(key)
    }

    /// As `KeyAuth::check_key`.
    pub fn check_key(&self, key: &str, uname: &str) -> (r: Result<(), DataError>)
        requires
            self.wf(),
        ensures
            exists|now: u64| r == key_verdict(self.key().keys(), key@, uname@, now),
    {
        let now = clock_now();
        self.keyauth.check_key_at(key, uname, now)
    }

    /// As `KeyAuth::refresh_key`.
    pub fn refresh_key(&mut self, key: &str) -> (r: Result<(), DataError>)
        requires
            old(self).wf(),
        ensures
            final(self).pwd() == old(self).pwd(),
            exists|now: u64| KeyAuth::refresh_step(old(self).key(), final(self).key(), key@, now, r),
    {
        let now = clock_now();
        let r = self.keyauth.refresh_key_at(key, now);
        assert(KeyAuth::refresh_step(old(self).key(), self.key(), key@, now, r));
        r
    }

    /// As `KeyAuth::check_and_refresh_key`.
    pub fn check_and_refresh_key(&mut self, key: &str, uname: &str) -> (r: Result<(), DataError>)
        requires
            old(self).wf(),
        ensures
            final(self).pwd() == old(self).pwd(),
            exists|now: u64| KeyAuth::check_refresh_step(old(self).key(), final(self).key(), key@, uname@, now, r),
    {
        let now = clock_now();
        let r = self.keyauth.check_and_refresh_key_at(key, uname, now);
        assert(KeyAuth::check_refresh_step(old(self).key(), self.key(), key@, uname@, now, r));
        r
    }

    /// As `KeyAuth::cull_keys`.
    pub fn cull_keys(&mut self)
        requires
            old(self).wf(),
        ensures
            final(self).pwd() == old(self).pwd(),
            exists|now: u64| KeyAuth::cull_step(old(self).key(), final(self).key(), now),
    {
        let now = clock_now();
        self.keyauth.cull_keys_at(now);
        assert(KeyAuth::cull_step(old(self).key(), self.key(), now));
    }

    /// Issues a key at instant `now` only to a user with credentials;
    /// `NoSuchUser`, changing nothing, otherwise. No password is checked.
    pub fn issue_user_key_at(&mut self, uname: &str, now: u64) -> (r: Result<String, DataError>)
        requires
            old(self).wf(),
            old(self).key().key_chars().len() > 0,
        ensures
            final(self).pwd() == old(self).pwd(),
            match r {
                Ok(key) => old(self).pwd().users().contains_key(uname@)
                    && KeyAuth::issue_step(old(self).key(), final(self).key(), uname@, now, key@),
                Err(e) => e == DataError::NoSuchUser && !old(self).pwd().users().contains_key(uname@)
                    && final(self).key() == old(self).key(),
            },
    {
        match self.pwdauth.user_exists(uname) {
            Err(e) => Err(e),
            Ok(()) => Ok(self.keyauth.issue_key_at(uname, now)),
        }
    }

    /// Issues a key, valid for the configured lifetime from now, only to a
    /// user with credentials; `NoSuchUser`, changing nothing, otherwise.
    pub fn issue_user_key(&mut self, uname: &str) -> (r: Result<String, DataError>)
        requires
            old(self).wf(),
            old(self).key().key_chars().len() > 0,
        ensures
            final(self).pwd() == old(self).pwd(),
            match r {
                Ok(key) => old(self).pwd().users().contains_key(uname@)
                    && exists|now: u64| KeyAuth::issue_step(old(self).key(), final(self).key(), uname@, now, key@),
                Err(e) => e == DataError::NoSuchUser && !old(self).pwd().users().contains_key(uname@)
                    && final(self).key() == old(self).key(),
            },
    {
        let now = clock_now();
        let r = self.issue_user_key_at(uname, now);
        assert(r matches Ok(key) ==> KeyAuth::issue_step(old(self).key(), self.key(), uname@, now, key@));
        r
    }

    /// Checks a password and, where it is right, issues a key at instant
    /// `now`; otherwise fails as the check did, changing nothing.
    pub fn check_password_and_issue_key_at(&mut self, uname: &str, password: &str, salt: &[u8], now: u64) -> (r: Result<String, DataError>)
        requires
            old(self).wf(),
            old(self).key().key_chars().len() > 0,
        ensures
            final(self).pwd() == old(self).pwd(),
            match r {
                Ok(key) => password_verdict(old(self).pwd().users(), uname@, salted_digest(password@, salt@)) is Ok
                    && KeyAuth::issue_step(old(self).key(), final(self).key(), uname@, now, key@),
                Err(e) => password_verdict(old(self).pwd().users(), uname@, salted_digest(password@, salt@)) == Err::<(), DataError>(e)
                    && final(self).key() == old(self).key(),
            },
    {
        match self.pwdauth.check_password(uname, password, salt) {
            Err(e) => Err(e),
            Ok(()) => Ok(self.keyauth.issue_key_at(uname, now)),
        }
    }

    /// Checks a password and, where it is right, issues a key valid for the
    /// configured lifetime from now; otherwise fails as the check did.
    pub fn check_password_and_issue_key(&mut self, uname: &str, password: &str, salt: &[u8]) -> (r: Result<String, DataError>)
        requires
            old(self).wf(),
            old(self).key().key_chars().len() > 0,
        ensures
            final(self).pwd() == old(self).pwd(),
            match r {
                Ok(key) => password_verdict(old(self).pwd().users(), uname@, salted_digest(password@, salt@)) is Ok
                    && exists|now: u64| KeyAuth::issue_step(old(self).key(), final(self).key(), uname@, now, key@),
                Err(e) => password_verdict(old(self).pwd().users(), uname@, salted_digest(password@, salt@)) == Err::<(), DataError>(e)
                    && final(self).key() == old(self).key(),
            },
    {
        let now = clock_now();
        let r = self.check_password_and_issue_key_at(uname, password, salt, now);
        assert(r matches Ok(key) ==> KeyAuth::issue_step(old(self).key(), self.key(), uname@, now, key@));
        r
    }

    /// Whether the credential store is dirty.
    pub fn pwd_dirty(&self) -> (r: bool)
        ensures
            r == self.pwd().dirty(),
    {
        self.pwdauth.is_dirty()
    }

    /// Whether the key store is dirty.
    pub fn key_dirty(&self) -> (r: bool)
        ensures
            r == self.key().dirty(),
    {
        self.keyauth.is_dirty()
    }

    /// The outcome of the last write, recorded on the store that was written:
    /// a success clears its dirty flag, a failure leaves it as it was.
    pub open spec fn recorded(pre: BothAuth, post: BothAuth, outcome: Option<(Store, Result<(), FileError>)>) -> bool {
        match outcome {
            None => post.pwd() == pre.pwd() && post.key() == pre.key(),
            Some((Store::Credentials, w)) => post.key() == pre.key() && post.pwd().users() == pre.pwd().users()
                && post.pwd().path() == pre.pwd().path() && post.pwd().wf() == pre.pwd().wf()
                && post.pwd().dirty() == (pre.pwd().dirty() && w is Err),
            Some((Store::Keys, w)) => post.pwd() == pre.pwd() && post.key().keys() == pre.key().keys()
                && post.key().same_setup(&pre.key()) && post.key().wf() == pre.key().wf()
                && post.key().dirty() == (pre.key().dirty() && w is Err),
        }
    }

    /// One step of saving whichever store is dirty. The outcome of the write
    /// asked for by the previous step (`None` at the start) is recorded first;
    /// a failed write ends the save with that failure. Otherwise the
    /// credential store is written first while it is dirty, then the key
    /// store while it is dirty, and the save ends with `Ok` once both are clean.
    pub fn save_step(&mut self, outcome: Option<(Store, Result<(), FileError>)>) -> (a: SaveAction)
        requires
            old(self).wf(),
        ensures
            BothAuth::recorded(*old(self), *final(self), outcome),
            final(self).wf(),
            match a {
                SaveAction::Finished(res) => if write_failed(outcome) {
                    res == outcome.unwrap().1
                } else {
                    res is Ok && !final(self).pwd().dirty() && !final(self).key().dirty()
                },
                SaveAction::Write(Store::Credentials, p, b) => !write_failed(outcome) && final(self).pwd().dirty()
                    && p@ == final(self).pwd().path() && cred_file_text(b@, final(self).pwd().users()),
                SaveAction::Write(Store::Keys, p, b) => !write_failed(outcome) && !final(self).pwd().dirty()
                    && final(self).key().dirty() && p@ == final(self).key().path()
                    && exists|now: u64| key_file_text(b@, live_keys(final(self).key().keys(), now)),
            },
    {
        if let Some((store, written)) = outcome {
            let r = match store {
                Store::Credentials => self.pwdauth.finish_save(written),
                Store::Keys => self.keyauth.finish_save(written),
            };
            if let Err(e) = r {
                return SaveAction::Finished(Err(e));
            }
        }
        if self.pwdauth.is_dirty() {
            return SaveAction::Write(Store::Credentials, self.pwdauth.file().to_owned(), self.pwdauth.encode());
        }
        if self.keyauth.is_dirty() {
            return SaveAction::Write(Store::Keys, self.keyauth.file().to_owned(), self.keyauth.encode());
        }
        SaveAction::Finished(Ok(()))
    }

    /// Records the outcome of writing the credential file.
    pub fn finish_pwd_save(&mut self, written: Result<(), FileError>) -> (r: Result<(), FileError>)
        ensures
            r == written,
            final(self).key() == old(self).key(),
            final(self).pwd().users() == old(self).pwd().users(),
            final(self).pwd().path() == old(self).pwd().path(),
            final(self).pwd().wf() == old(self).pwd().wf(),
            final(self).pwd().dirty() == (old(self).pwd().dirty() && written is Err),
    {
        self.pwdauth.finish_save(written)
    }

    /// Records the outcome of writing the key file.
    pub fn finish_key_save(&mut self, written: Result<(), FileError>) -> (r: Result<(), FileError>)
        ensures
            r == written,
            final(self).pwd() == old(self).pwd(),
            final(self).key().keys() == old(self).key().keys(),
            final(self).key().same_setup(&old(self).key()),
            final(self).key().wf() == old(self).key().wf(),
            final(self).key().dirty() == (old(self).key().dirty() && written is Err),
    {
        self.keyauth.finish_save(written)
    }
}

} // verus!
