//! The credential store: usernames mapped to salted password digests.
use vstd::prelude::*;
use crate::DataError;
use crate::FileError;
use crate::table::Table;
use crate::digest::{DIGEST_LEN, digest_of_hex, from_hex, hash_with_salt, hex_of, salted_digest, to_hex};
use crate::text::{csv_rows, csv_text, decode_rows, push_record, strings_view};

verus! {

/// The header row of a credential file.
pub open spec fn cred_header() -> Seq<Seq<char>> {
    seq![seq!['u', 'n', 'a', 'm', 'e'], seq!['h', 'a', 's', 'h']]
}

/// The credentials that the data rows of a file give: a row of two fields
/// whose second is a digest in hexadecimal; later rows win; other rows are skipped.
pub open spec fn creds_of_rows(rows: Seq<Option<Seq<Seq<char>>>>) -> Map<Seq<char>, Seq<u8>>
    decreases rows.len(),
{
    if rows.len() == 0 {
        Map::empty()
    } else {
        let m = creds_of_rows(rows.drop_last());
        match rows.last() {
            Some(f) => if f.len() == 2 && digest_of_hex(f[1]) is Some {
                m.insert(f[0], digest_of_hex(f[1]).unwrap())
            } else {
                m
            },
            None => m,
        }
    }
}

/// The credentials held in a file's text: its rows after the header.
pub open spec fn creds_of_file(data: Seq<u8>) -> Map<Seq<char>, Seq<u8>> {
    if csv_rows(data).len() == 0 {
        Map::empty()
    } else {
        creds_of_rows(csv_rows(data).drop_first())
    }
}

/// `rows` lists the credentials of `m`, one row each, in some order.
pub open spec fn lists_creds(rows: Seq<Seq<Seq<char>>>, m: Map<Seq<char>, Seq<u8>>) -> bool {
    &&& forall|i: int| 0 <= i < rows.len() ==> (#[trigger] rows[i]).len() == 2 && m.contains_key(rows[i][0])
        && rows[i][1] == hex_of(m[rows[i][0]])
    &&& forall|u: Seq<char>| #[trigger] m.contains_key(u) ==> exists|i: int| 0 <= i < rows.len() && (#[trigger] rows[i])[0] == u
    &&& forall|i: int, j: int| 0 <= i < rows.len() && 0 <= j < rows.len() && i != j ==> (#[trigger] rows[i])[0] != (#[trigger] rows[j])[0]
}

/// What checking a password gives, for the digest of the offered password.
pub open spec fn password_verdict(users: Map<Seq<char>, Seq<u8>>, uname: Seq<char>, offered: Seq<u8>) -> Result<(), DataError> {
    if !users.contains_key(uname) {
        Err(DataError::NoSuchUser)
    } else if users[uname] != offered {
        Err(DataError::BadPassword)
    } else {
        Ok(())
    }
}

/// Whether two byte vectors hold the same bytes. Every byte is compared,
/// whatever the earlier ones held, so the time taken does not tell where
/// two digests of one length first differ.
fn same_bytes(a: &Vec<u8>, b: &Vec<u8>) -> (r: bool)
    ensures
        r == (a@ == b@),
{
    if a.len() != b.len() {
        return false;
    }
    let mut diff: u8 = 0;
    let mut i: usize = 0;
    while i < a.len()
        invariant
            a@.len() == b@.len(),
            i <= a@.len(),
            (diff == 0) == (forall|j: int| 0 <= j < i ==> a@[j] == b@[j]),
        decreases a@.len() - i,
    {
        let x = a[i];
        let y = b[i];
        assert((diff | (x ^ y)) == 0u8 <==> (diff == 0u8 && x == y)) by (bit_vector);
        diff = diff | (x ^ y);
        i = i + 1;
    }
    if diff == 0 {
        assert(a@ =~= b@);
    }
    diff == 0
}

/// `b` is a credential file's text listing exactly the credentials of `m`:
/// the header row, then one row per user, in some order.
pub open spec fn cred_file_text(b: Seq<u8>, m: Map<Seq<char>, Seq<u8>>) -> bool {
    exists|rows: Seq<Seq<Seq<char>>>| lists_creds(rows, m) && b == csv_text(seq![cred_header()] + rows)
}

/// A password database: usernames with the digest of their salted
/// password, a flag that says whether it changed since it was last
/// saved, and the path of the file that it is saved to.
pub struct PwdAuth {
    hashes: Table<Vec<u8>>,
    ufile: String,
    udirty: bool,
}

impl PwdAuth {
    /// Every username with the digest of its password.
    pub closed spec fn users(&self) -> Map<Seq<char>, Seq<u8>> {
        self.hashes@
    }

    /// Whether the database changed since it was last saved.
    pub closed spec fn dirty(&self) -> bool {
        self.udirty
    }

    /// The path of the file that the database is saved to.
    pub closed spec fn path(&self) -> Seq<char> {
        self.ufile@
    }

    /// Keys unique, and every digest 32 bytes long.
    pub closed spec fn wf(&self) -> bool {
        &&& self.hashes.wf()
        &&& forall|u: Seq<char>| #[trigger] self.hashes@.contains_key(u) ==> self.hashes@[u].len() == DIGEST_LEN
    }

    /// Every digest of a well-formed database is 32 bytes long.
    pub proof fn lemma_digest_lengths(&self)
        requires
            self.wf(),
        ensures
            forall|u: Seq<char>| #[trigger] self.users().contains_key(u) ==> self.users()[u].len() == DIGEST_LEN,
    {
    }

    /// An empty database that will be saved to `file`; not dirty.
    pub fn blank(file: &str) -> (a: Self)
        ensures
            a.wf(),
            a.users() == Map::<Seq<char>, Seq<u8>>::empty(),
            !a.dirty(),
            a.path() == file@,
    {
        PwdAuth { hashes: Table::new(), ufile: file.to_owned(), udirty: false }
    }

    /// The database that the text of a credential file holds; not dirty.
    /// Rows that are not a username and a digest in hexadecimal are skipped;
    /// of two rows for one username the later wins.
    pub fn load(file: &str, data: &[u8]) -> (a: Self)
        ensures
            a.wf(),
            a.users() == creds_of_file(data@),
            !a.dirty(),
            a.path() == file@,
    {
        let rows = decode_rows(data);
        let ghost all = csv_rows(data@);
        let mut hashes: Table<Vec<u8>> = Table::new();
        let mut i: usize = 1;
        while i < rows.len()
            invariant
                rows@.len() == all.len(),
                forall|j: int| 0 <= j < rows@.len() ==> match #[trigger] rows@[j] {
                    Some(f) => all[j] == Some(strings_view(f@)),
                    None => all[j] is None,
                },
                1 <= i <= rows@.len() || rows@.len() == 0,
                hashes.wf(),
                forall|u: Seq<char>| #[trigger] hashes@.contains_key(u) ==> hashes@[u].len() == DIGEST_LEN,
                rows@.len() > 0 ==> hashes@ == creds_of_rows(all.subrange(1, i as int)),
                rows@.len() == 0 ==> hashes@ == Map::<Seq<char>, Seq<u8>>::empty(),
            decreases rows@.len() - i,
        {
            proof {
                assert(all.subrange(1, i + 1).drop_last() =~= all.subrange(1, i as int));
                assert(all.subrange(1, i + 1).last() == all[i as int]);
            }
            match &rows[i] {
                Some(f) => {
                    if f.len() == 2 {
                        match from_hex(f[1].as_str()) {
                            Some(d) => {
                                hashes.insert(f[0].clone(), d);
                            },
                            None => {},
                        }
                    }
                },
                None => {},
            }
            i = i + 1;
        }
        proof {
            if all.len() > 0 {
                assert(all.subrange(1, all.len() as int) =~= all.drop_first());
            }
        }
        PwdAuth { hashes, ufile: file.to_owned(), udirty: false }
    }

    /// The text of the credential file: the header row, then one row per
    /// user with the digest in hexadecimal.
    pub fn encode(&self) -> (b: Vec<u8>)
        requires
            self.wf(),
        ensures
            cred_file_text(b@, self.users()),
    {
        let mut out: Vec<u8> = Vec::new();
        let mut header: Vec<String> = Vec::new();
        header.push("uname".to_owned());
        header.push("hash".to_owned());
        proof {
            reveal_strlit("uname");
            reveal_strlit("hash");
            assert(header@[0]@ =~= seq!['u', 'n', 'a', 'm', 'e']);
            assert(header@[1]@ =~= seq!['h', 'a', 's', 'h']);
            assert(strings_view(header@) =~= cred_header());
            assert(seq![cred_header()].drop_last() =~= Seq::<Seq<Seq<char>>>::empty());
        }
        push_record(&mut out, &header, Ghost(Seq::empty()));
        assert(seq![cred_header()] =~= Seq::<Seq<Seq<char>>>::empty().push(cred_header()));
        proof { self.hashes.lemma_entries(); }
        let ghost ents = self.hashes.seq();
        let ghost mut rows: Seq<Seq<Seq<char>>> = Seq::empty();
        let n = self.hashes.len();
        let mut i: usize = 0;
        while i < n
            invariant
                self.wf(),
                n == ents.len(),
                ents == self.hashes.seq(),
                i <= n,
                rows.len() == i,
                forall|j: int| 0 <= j < i ==> #[trigger] rows[j] == seq![ents[j].0@, hex_of(ents[j].1@)],
                out@ == csv_text(seq![cred_header()] + rows),
            decreases n - i,
        {
            let e = self.hashes.entry(i);
            proof { self.hashes.lemma_entries(); }
            let fields = vec![e.0.clone(), to_hex(&e.1)];
            assert(strings_view(fields@) =~= seq![ents[i as int].0@, hex_of(ents[i as int].1@)]);
            push_record(&mut out, &fields, Ghost(seq![cred_header()] + rows));
            proof {
                assert(seq![cred_header()] + rows.push(strings_view(fields@))
                    =~= (seq![cred_header()] + rows).push(strings_view(fields@)));
                rows = rows.push(strings_view(fields@));
            }
            i = i + 1;
        }
        proof {
            self.hashes.lemma_entries();
            assert forall|u: Seq<char>| #[trigger] self.users().contains_key(u) implies exists|j: int|
                0 <= j < rows.len() && (#[trigger] rows[j])[0] == u by {
                let j = choose|j: int| 0 <= j < ents.len() && (#[trigger] ents[j]).0@ == u;
                assert(rows[j][0] == u);
            }
            assert forall|a: int, b: int| 0 <= a < rows.len() && 0 <= b < rows.len() && a != b implies
                (#[trigger] rows[a])[0] != (#[trigger] rows[b])[0] by {
                assert(ents[a].0@ != ents[b].0@);
            }
            assert(lists_creds(rows, self.users()));
        }
        out
    }

    /// Records the outcome of writing the file: a success clears the dirty
    /// flag, a failure leaves it as it was. Hands the outcome back.
    pub fn finish_save(&mut self, written: Result<(), FileError>) -> (r: Result<(), FileError>)
        ensures
            r == written,
            final(self).users() == old(self).users(),
            final(self).path() == old(self).path(),
            final(self).wf() == old(self).wf(),
            final(self).dirty() == (old(self).dirty() && written is Err),
    {
        if written.is_ok() {
            self.udirty = false;
        }
        written
    }


    /// Adds a user whose password digest is that of `password` salted with
    /// `salt`, and marks the database dirty. Fails with `UserExists`, changing
    /// nothing, where the username is taken.
    pub fn add_user(&mut self, uname: &str, password: &str, salt: &[u8]) -> (r: Result<(), DataError>)
        requires
            old(self).wf(),
        ensures
            PwdAuth::add_step(*old(self), *final(self), uname@, salted_digest(password@, salt@), r),
    {
        let hash = hash_with_salt(password, salt);
        if self.hashes.contains(uname) {
            return Err(DataError::UserExists);
        }
        self.hashes.insert(uname.to_owned(), hash);
        self.udirty = true;
        Ok(())
    }

    /// Deletes a user and marks the database dirty. Fails with `NoSuchUser`,
    /// changing nothing, where there is no such user.
    pub fn delete_user(&mut self, uname: &str) -> (r: Result<(), DataError>)
        requires
            old(self).wf(),
        ensures
            PwdAuth::delete_step(*old(self), *final(self), uname@, r),
    {
        let found = self.hashes.remove(uname);
        proof {
            assert forall|u: Seq<char>| #[trigger] self.hashes@.contains_key(u) implies self.hashes@[u].len() == DIGEST_LEN by {
                assert(old(self).hashes@.contains_key(u));
            }
        }
        if found {
            self.udirty = true;
            Ok(())
        } else {
            assert(self.hashes@ =~= old(self).hashes@);
            Err(DataError::NoSuchUser)
        }
    }

    /// Replaces a user's password digest. The dirty flag is left as it was.
    /// Fails with `NoSuchUser`, changing nothing, where there is no such user.
    pub fn change_password(&mut self, uname: &str, password: &str, salt: &[u8]) -> (r: Result<(), DataError>)
        requires
            old(self).wf(),
        ensures
            PwdAuth::change_step(*old(self), *final(self), uname@, salted_digest(password@, salt@), r),
    {
        let hash = hash_with_salt(password, salt);
        if !self.hashes.contains(uname) {
            return Err(DataError::NoSuchUser);
        }
        self.hashes.insert(uname.to_owned(), hash);
        Ok(())
    }

    /// Checks a password: `NoSuchUser` where the user is absent, `BadPassword`
    /// where the salted digest differs from the stored one, else `Ok`.
    pub fn check_password(&self, uname: &str, password: &str, salt: &[u8]) -> (r: Result<(), DataError>)
        requires
            self.wf(),
        ensures
            r == password_verdict(self.users(), uname@, salted_digest(password@, salt@)),
    {
        let hash = hash_with_salt(password, salt);
        match self.hashes.get(uname) {
            None => Err(DataError::NoSuchUser),
            Some(h) => {
                if same_bytes(h, &hash) {
                    Ok(())
                } else {
                    Err(DataError::BadPassword)
                }
            },
        }
    }

    /// `Ok` where the user is present, else `NoSuchUser`.
    pub fn user_exists(&self, uname: &str) -> (r: Result<(), DataError>)
        requires
            self.wf(),
        ensures
            r is Ok <==> self.users().contains_key(uname@),
            r matches Err(e) ==> e == DataError::NoSuchUser,
    {
        if self.hashes.contains(uname) {
            Ok(())
        } else {
            Err(DataError::NoSuchUser)
        }
    }

    /// Whether the database changed since it was last saved.
    pub fn is_dirty(&self) -> (r: bool)
        ensures
            r == self.dirty(),
    {
        self.udirty
    }

    /// The path of the file that the database is saved to.
    pub fn file(&self) -> (r: &str)
        ensures
            r@ == self.path(),
    {
        self.ufile.as_str()
    }
}

impl PwdAuth {
    /// Adding a user with digest `d`: refused with `UserExists` where the
    /// name is taken, changing nothing; else stored, and the database dirty.
    pub open spec fn add_step(pre: PwdAuth, post: PwdAuth, uname: Seq<char>, d: Seq<u8>, r: Result<(), DataError>) -> bool {
        &&& post.wf()
        &&& post.path() == pre.path()
        &&& match r {
            Ok(()) => !pre.users().contains_key(uname) && post.users() == pre.users().insert(uname, d) && post.dirty(),
            Err(e) => e == DataError::UserExists && pre.users().contains_key(uname)
                && post.users() == pre.users() && post.dirty() == pre.dirty(),
        }
    }

    /// Deleting a user: refused with `NoSuchUser` where absent, changing
    /// nothing; else removed, and the database dirty.
    pub open spec fn delete_step(pre: PwdAuth, post: PwdAuth, uname: Seq<char>, r: Result<(), DataError>) -> bool {
        &&& post.wf()
        &&& post.path() == pre.path()
        &&& match r {
            Ok(()) => pre.users().contains_key(uname) && post.users() == pre.users().remove(uname) && post.dirty(),
            Err(e) => e == DataError::NoSuchUser && !pre.users().contains_key(uname)
                && post.users() == pre.users() && post.dirty() == pre.dirty(),
        }
    }

    /// Changing a user's digest to `d`: refused with `NoSuchUser` where
    /// absent; the dirty flag stays as it was either way.
    pub open spec fn change_step(pre: PwdAuth, post: PwdAuth, uname: Seq<char>, d: Seq<u8>, r: Result<(), DataError>) -> bool {
        &&& post.wf()
        &&& post.path() == pre.path()
        &&& post.dirty() == pre.dirty()
        &&& match r {
            Ok(()) => pre.users().contains_key(uname) && post.users() == pre.users().insert(uname, d),
            Err(e) => e == DataError::NoSuchUser && !pre.users().contains_key(uname) && post.users() == pre.users(),
        }
    }
}

} // verus!
