//! Properties that relate several operations of the stores.
use vstd::prelude::*;
use crate::DataError;
use crate::digest::{DIGEST_LEN, digest_of_hex, lemma_hex_round_trip, salted_digest};
use crate::pwd::{PwdAuth, creds_of_rows, lists_creds, password_verdict};
use crate::key::{KeyAuth, expired, expiry_after, expiry_invalidated, key_verdict, keys_of_rows, lists_keys, live_keys};
use crate::text::{rfc3339_text, rfc3339_value};
use vstd::set_lib::lemma_len_subset;

verus! {

/// The rows of a credential listing, each as a row that was read.
pub open spec fn as_read(rows: Seq<Seq<Seq<char>>>) -> Seq<Option<Seq<Seq<char>>>> {
    rows.map_values(|r: Seq<Seq<char>>| Some(r))
}

proof fn lemma_cred_rows_prefix(rows: Seq<Seq<Seq<char>>>, m: Map<Seq<char>, Seq<u8>>, n: int)
    requires
        lists_creds(rows, m),
        forall|u: Seq<char>| #[trigger] m.contains_key(u) ==> m[u].len() == DIGEST_LEN,
        0 <= n <= rows.len(),
    ensures
        creds_of_rows(as_read(rows.subrange(0, n)))
            == m.restrict(Set::new(|u: Seq<char>| exists|i: int| 0 <= i < n && (#[trigger] rows[i])[0] == u)),
    decreases n,
{
    let seen = Set::new(|u: Seq<char>| exists|i: int| 0 <= i < n && (#[trigger] rows[i])[0] == u);
    if n == 0 {
        assert(as_read(rows.subrange(0, 0)) =~= Seq::<Option<Seq<Seq<char>>>>::empty());
        assert(m.restrict(seen) =~= Map::<Seq<char>, Seq<u8>>::empty());
    } else {
        lemma_cred_rows_prefix(rows, m, n - 1);
        let before = Set::new(|u: Seq<char>| exists|i: int| 0 <= i < n - 1 && (#[trigger] rows[i])[0] == u);
        let r = rows[n - 1];
        assert(as_read(rows.subrange(0, n)).drop_last() =~= as_read(rows.subrange(0, n - 1)));
        assert(as_read(rows.subrange(0, n)).last() == Some(r));
        lemma_hex_round_trip(m[r[0]]);
        assert(digest_of_hex(r[1]) == Some(m[r[0]]));
        assert(seen =~= before.insert(r[0]));
        assert(m.restrict(seen) =~= m.restrict(before).insert(r[0], m[r[0]]));
    }
}

/// Reading back the rows that list a set of credentials gives exactly those
/// credentials: saving and reopening keeps every user and digest.
pub proof fn lemma_cred_rows_round_trip(rows: Seq<Seq<Seq<char>>>, m: Map<Seq<char>, Seq<u8>>)
    requires
        lists_creds(rows, m),
        forall|u: Seq<char>| #[trigger] m.contains_key(u) ==> m[u].len() == DIGEST_LEN,
    ensures
        creds_of_rows(as_read(rows)) == m,
{
    lemma_cred_rows_prefix(rows, m, rows.len() as int);
    assert(rows.subrange(0, rows.len() as int) =~= rows);
    let seen = Set::new(|u: Seq<char>| exists|i: int| 0 <= i < rows.len() && (#[trigger] rows[i])[0] == u);
    assert(m.restrict(seen) =~= m);
}

/// After a user is added, the password and salt it was added with pass the
/// check, also on the credentials read back from any listing of the store;
/// an offer whose salted digest differs fails with `BadPassword`.
pub proof fn lemma_added_user_checks(
    pre: PwdAuth,
    post: PwdAuth,
    uname: Seq<char>,
    password: Seq<char>,
    salt: Seq<u8>,
    rows: Seq<Seq<Seq<char>>>,
    offered: Seq<u8>,
)
    requires
        PwdAuth::add_step(pre, post, uname, salted_digest(password, salt), Ok(())),
        lists_creds(rows, post.users()),
    ensures
        password_verdict(post.users(), uname, salted_digest(password, salt)) == Ok::<(), DataError>(()),
        password_verdict(creds_of_rows(as_read(rows)), uname, salted_digest(password, salt)) == Ok::<(), DataError>(()),
        offered != salted_digest(password, salt) ==>
            password_verdict(creds_of_rows(as_read(rows)), uname, offered) == Err::<(), DataError>(DataError::BadPassword),
{
    post.lemma_digest_lengths();
    lemma_cred_rows_round_trip(rows, post.users());
}

/// Adding a username a second time fails with `UserExists` and leaves the
/// stored digest as the first addition made it.
pub proof fn lemma_add_twice(
    a: PwdAuth,
    b: PwdAuth,
    c: PwdAuth,
    uname: Seq<char>,
    d1: Seq<u8>,
    d2: Seq<u8>,
    r2: Result<(), DataError>,
)
    requires
        PwdAuth::add_step(a, b, uname, d1, Ok(())),
        PwdAuth::add_step(b, c, uname, d2, r2),
    ensures
        r2 == Err::<(), DataError>(DataError::UserExists),
        c.users() == b.users(),
        c.users()[uname] == d1,
{
}

/// Every successful mutation but a password change marks the credential
/// store dirty; a change keeps the flag as it was.
pub proof fn lemma_pwd_mutations_dirty(pre: PwdAuth, post: PwdAuth, uname: Seq<char>, d: Seq<u8>)
    ensures
        PwdAuth::add_step(pre, post, uname, d, Ok(())) ==> post.dirty(),
        PwdAuth::delete_step(pre, post, uname, Ok(())) ==> post.dirty(),
        PwdAuth::change_step(pre, post, uname, d, Ok(())) ==> post.dirty() == pre.dirty(),
{
}

/// Issuing, invalidating, removing and culling mark the key store dirty;
/// refreshing keeps the flag as it was.
pub proof fn lemma_key_mutations_dirty(pre: KeyAuth, post: KeyAuth, key: Seq<char>, uname: Seq<char>, now: u64)
    ensures
        KeyAuth::issue_step(pre, post, uname, now, key) ==> post.dirty(),
        KeyAuth::invalidate_step(pre, post, key, now, Ok(())) ==> post.dirty(),
        KeyAuth::refresh_step(pre, post, key, now, Ok(())) ==> post.dirty() == pre.dirty(),
        KeyAuth::check_refresh_step(pre, post, key, uname, now, Ok(())) ==> post.dirty() == pre.dirty(),
        KeyAuth::cull_step(pre, post, now) && (exists|k: Seq<char>| #[trigger] pre.keys().contains_key(k) && expired(pre.keys()[k].1, now))
            ==> post.dirty(),
{
}

/// A key just issued passes the check for its owner and fails with
/// `BadUsername` for anyone else, given a lifetime above zero and an
/// instant before the last one.
pub proof fn lemma_issued_key_checks(pre: KeyAuth, post: KeyAuth, uname: Seq<char>, other: Seq<char>, now: u64, key: Seq<char>)
    requires
        KeyAuth::issue_step(pre, post, uname, now, key),
        pre.lifetime() > 0,
        now < u64::MAX,
    ensures
        key_verdict(post.keys(), key, uname, now) == Ok::<(), DataError>(()),
        other != uname ==> key_verdict(post.keys(), key, other, now) == Err::<(), DataError>(DataError::BadUsername),
{
    assert(expiry_after(now, pre.lifetime()) > now);
}

/// Once a key is invalidated, its owner's checks fail with `KeyExpired` from
/// then on, and invalidating it again fails with `KeyExpired` too.
pub proof fn lemma_invalidated_key_expired(
    pre: KeyAuth,
    post: KeyAuth,
    again: KeyAuth,
    key: Seq<char>,
    now: u64,
    later: u64,
    r: Result<(), DataError>,
)
    requires
        KeyAuth::invalidate_step(pre, post, key, now, Ok(())),
        now <= later,
        KeyAuth::invalidate_step(post, again, key, later, r),
    ensures
        key_verdict(post.keys(), key, post.keys()[key].0, later) == Err::<(), DataError>(DataError::KeyExpired),
        r == Err::<(), DataError>(DataError::KeyExpired),
        again.keys() == post.keys(),
{
    assert(post.keys()[key].1 == expiry_invalidated(now));
}

/// Culling at `now` removes exactly the keys expired at `now`: a key that
/// expires later stays as it was, and a culled key is then unknown.
pub proof fn lemma_cull_exact(pre: KeyAuth, post: KeyAuth, now: u64, key: Seq<char>, uname: Seq<char>, later: u64)
    requires
        KeyAuth::cull_step(pre, post, now),
    ensures
        post.keys().contains_key(key) <==> (pre.keys().contains_key(key) && !expired(pre.keys()[key].1, now)),
        post.keys().contains_key(key) ==> post.keys()[key] == pre.keys()[key],
        pre.keys().contains_key(key) && expired(pre.keys()[key].1, now) ==>
            key_verdict(post.keys(), key, uname, later) == Err::<(), DataError>(DataError::NoSuchKey),
{
}

proof fn lemma_key_rows_prefix(rows: Seq<Seq<Seq<char>>>, m: Map<Seq<char>, (Seq<char>, u64)>, now: u64, n: int)
    requires
        lists_keys(rows, m),
        forall|k: Seq<char>| #[trigger] m.contains_key(k) ==> rfc3339_value(rfc3339_text(m[k].1)) == Some(m[k].1),
        0 <= n <= rows.len(),
    ensures
        keys_of_rows(as_read(rows.subrange(0, n)), 0, 1, 2, now)
            == live_keys(m, now).restrict(Set::new(|k: Seq<char>| exists|i: int| 0 <= i < n && (#[trigger] rows[i])[0] == k)),
    decreases n,
{
    let seen = Set::new(|k: Seq<char>| exists|i: int| 0 <= i < n && (#[trigger] rows[i])[0] == k);
    let live = live_keys(m, now);
    if n == 0 {
        assert(as_read(rows.subrange(0, 0)) =~= Seq::<Option<Seq<Seq<char>>>>::empty());
        assert(live.restrict(seen) =~= Map::<Seq<char>, (Seq<char>, u64)>::empty());
    } else {
        lemma_key_rows_prefix(rows, m, now, n - 1);
        let before = Set::new(|k: Seq<char>| exists|i: int| 0 <= i < n - 1 && (#[trigger] rows[i])[0] == k);
        let r = rows[n - 1];
        assert(as_read(rows.subrange(0, n)).drop_last() =~= as_read(rows.subrange(0, n - 1)));
        assert(as_read(rows.subrange(0, n)).last() == Some(r));
        assert(r[1] == rfc3339_text(m[r[0]].1) && r[2] == m[r[0]].0);
        assert(seen =~= before.insert(r[0]));
        if expired(m[r[0]].1, now) {
            assert(live.restrict(seen) =~= live.restrict(before));
        } else {
            assert(live.restrict(seen) =~= live.restrict(before).insert(r[0], m[r[0]]));
        }
    }
}

/// Culling marks the key store dirty exactly where it was dirty already or
/// the culled store holds fewer keys than before.
pub proof fn lemma_cull_dirty_iff_shrunk(pre: KeyAuth, post: KeyAuth, now: u64)
    requires
        pre.wf(),
        KeyAuth::cull_step(pre, post, now),
    ensures
        post.dirty() == (pre.dirty() || post.keys().len() < pre.keys().len()),
{
    pre.lemma_keys_finite();
    let d = pre.keys().dom();
    assert(post.keys().dom().subset_of(d));
    if exists|k: Seq<char>| #[trigger] pre.keys().contains_key(k) && expired(pre.keys()[k].1, now) {
        let k = choose|k: Seq<char>| #[trigger] pre.keys().contains_key(k) && expired(pre.keys()[k].1, now);
        assert(post.keys().dom().subset_of(d.remove(k)));
        lemma_len_subset(post.keys().dom(), d.remove(k));
    } else {
        assert(post.keys() =~= pre.keys());
    }
}

/// Reading back, at instant `now`, the rows that list a set of keys gives
/// exactly the listed keys still valid at `now`, wherever each expiry's
/// timestamp text reads back as the instant it was written from, as
/// `KeyAuth::encode_at` promises for the keys it writes.
pub proof fn lemma_key_rows_round_trip(rows: Seq<Seq<Seq<char>>>, m: Map<Seq<char>, (Seq<char>, u64)>, now: u64)
    requires
        lists_keys(rows, m),
        forall|k: Seq<char>| #[trigger] m.contains_key(k) ==> rfc3339_value(rfc3339_text(m[k].1)) == Some(m[k].1),
    ensures
        keys_of_rows(as_read(rows), 0, 1, 2, now) == live_keys(m, now),
{
    lemma_key_rows_prefix(rows, m, now, rows.len() as int);
    assert(rows.subrange(0, rows.len() as int) =~= rows);
    let seen = Set::new(|k: Seq<char>| exists|i: int| 0 <= i < rows.len() && (#[trigger] rows[i])[0] == k);
    assert(live_keys(m, now).restrict(seen) =~= live_keys(m, now));
}

} // verus!
