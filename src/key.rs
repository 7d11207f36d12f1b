//! The session-key store: random key strings bound to a username and an
//! expiry instant, in nanoseconds since the Unix epoch.
use vstd::prelude::*;
use std::time::{SystemTime, UNIX_EPOCH};
use rand::Rng;
use crate::DataError;
use crate::table::Table;
use crate::FileError;
use crate::text::{csv_rows, csv_text, decode_rows, push_record, rfc3339_text, rfc3339_value, string_from_chars, strings_view, time_text, time_value};

verus! {

/// Default length of a generated key.
pub const DEFAULT_KEY_LENGTH: usize = 32;

/// Default lifetime of a key: twenty minutes, in nanoseconds.
pub const DEFAULT_KEY_LIFE: u64 = 1_200_000_000_000;

/// How far into the past an invalidated key's expiry is moved.
pub const ONE_YEAR: u64 = 31_449_600_000_000_000;

/// The characters keys are drawn from by default.
pub open spec fn default_key_chars() -> Seq<char> {
    seq!['a', 'b', 'c', 'd', 'e', 'f', 'g', 'h', 'i', 'j', 'k', 'l', 'm', 'n', 'o', 'p', 'q', 'r', 's',
        't', 'u', 'v', 'w', 'x', 'y', 'z', 'A', 'B', 'C', 'D', 'E', 'F', 'G', 'H', 'I', 'J', 'K', 'L',
        'M', 'N', 'O', 'P', 'Q', 'R', 'S', 'T', 'U', 'V', 'W', 'X', 'Y', 'Z', '0', '1', '2', '3', '4',
        '5', '6', '7', '8', '9', '/', '?', ':', ';', '[', ']', '{', '}', '|', '-', '_', '#', '^']
}

/// A key with this expiry is no longer valid at instant `now`.
pub open spec fn expired(expiry: u64, now: u64) -> bool {
    expiry <= now
}

/// `now` plus `life`, or the last instant where that does not fit.
pub open spec fn expiry_after(now: u64, life: u64) -> u64 {
    if now + life > u64::MAX {
        u64::MAX
    } else {
        (now + life) as u64
    }
}

/// The expiry an invalidated key gets: a year before `now`, or the epoch.
pub open spec fn expiry_invalidated(now: u64) -> u64 {
    if now < ONE_YEAR {
        0
    } else {
        (now - ONE_YEAR) as u64
    }
}

/// What checking `key` for `uname` at instant `now` gives.
pub open spec fn key_verdict(keys: Map<Seq<char>, (Seq<char>, u64)>, key: Seq<char>, uname: Seq<char>, now: u64) -> Result<(), DataError> {
    if !keys.contains_key(key) {
        Err(DataError::NoSuchKey)
    } else if keys[key].0 != uname {
        Err(DataError::BadUsername)
    } else if expired(keys[key].1, now) {
        Err(DataError::KeyExpired)
    } else {
        Ok(())
    }
}

/// The keys of `keys` that are still valid at `now`.
pub open spec fn live_keys(keys: Map<Seq<char>, (Seq<char>, u64)>, now: u64) -> Map<Seq<char>, (Seq<char>, u64)> {
    keys.restrict(keys.dom().filter(|k: Seq<char>| !expired(keys[k].1, now)))
}

/// The header row of a key file.
pub open spec fn key_header() -> Seq<Seq<char>> {
    seq![seq!['k', 'e', 'y'], seq!['e', 'x', 'p', 'i', 'r', 'y'], seq!['u', 'n', 'a', 'm', 'e']]
}

/// The first column of a header row that carries `name`.
pub open spec fn column_of(h: Seq<Seq<char>>, name: Seq<char>) -> Option<int>
    decreases h.len(),
{
    if h.len() == 0 {
        None
    } else {
        match column_of(h.drop_last(), name) {
            Some(i) => Some(i),
            None => if h.last() == name { Some(h.len() - 1) } else { None },
        }
    }
}

/// The key, owner and expiry that a data row holds, given the columns of
/// the three fields; `None` where a field is missing or the expiry unreadable.
pub open spec fn key_of_row(f: Seq<Seq<char>>, ck: int, ce: int, cu: int) -> Option<(Seq<char>, (Seq<char>, u64))> {
    if ck < f.len() && ce < f.len() && cu < f.len() && rfc3339_value(f[ce]) is Some {
        Some((f[ck], (f[cu], rfc3339_value(f[ce]).unwrap())))
    } else {
        None
    }
}

/// The keys still valid at `now` that the data rows of a file give; later rows win.
pub open spec fn keys_of_rows(rows: Seq<Option<Seq<Seq<char>>>>, ck: int, ce: int, cu: int, now: u64) -> Map<Seq<char>, (Seq<char>, u64)>
    decreases rows.len(),
{
    if rows.len() == 0 {
        Map::empty()
    } else {
        let m = keys_of_rows(rows.drop_last(), ck, ce, cu, now);
        match rows.last() {
            Some(f) => match key_of_row(f, ck, ce, cu) {
                Some(e) => if !expired(e.1.1, now) { m.insert(e.0, e.1) } else { m },
                None => m,
            },
            None => m,
        }
    }
}

/// The keys still valid at `now` that a key file's text holds: the rows
/// after the header, read by the header's column names.
pub open spec fn keys_of_file(data: Seq<u8>, now: u64) -> Map<Seq<char>, (Seq<char>, u64)> {
    let rows = csv_rows(data);
    if rows.len() == 0 || rows[0] is None {
        Map::empty()
    } else {
        let h = rows[0].unwrap();
        if column_of(h, key_header()[0]) is Some && column_of(h, key_header()[1]) is Some
            && column_of(h, key_header()[2]) is Some {
            keys_of_rows(rows.drop_first(), column_of(h, key_header()[0]).unwrap(),
                column_of(h, key_header()[1]).unwrap(), column_of(h, key_header()[2]).unwrap(), now)
        } else {
            Map::empty()
        }
    }
}

/// `rows` lists the keys of `m`, one row each, in some order.
pub open spec fn lists_keys(rows: Seq<Seq<Seq<char>>>, m: Map<Seq<char>, (Seq<char>, u64)>) -> bool {
    &&& forall|i: int| 0 <= i < rows.len() ==> (#[trigger] rows[i]).len() == 3 && m.contains_key(rows[i][0])
        && rows[i] == seq![rows[i][0], rfc3339_text(m[rows[i][0]].1), m[rows[i][0]].0]
    &&& forall|k: Seq<char>| #[trigger] m.contains_key(k) ==> exists|i: int| 0 <= i < rows.len() && (#[trigger] rows[i])[0] == k
    &&& forall|i: int, j: int| 0 <= i < rows.len() && 0 <= j < rows.len() && i != j ==> (#[trigger] rows[i])[0] != (#[trigger] rows[j])[0]
}

/// `b` is a key file's text listing exactly the keys of `m`: the header
/// row, then one row per key, in some order.
pub open spec fn key_file_text(b: Seq<u8>, m: Map<Seq<char>, (Seq<char>, u64)>) -> bool {
    exists|rows: Seq<Seq<Seq<char>>>| lists_keys(rows, m) && b == csv_text(seq![key_header()] + rows)
}

/// The first column of `h` that carries `name`.
fn find_column(h: &Vec<String>, name: &str) -> (r: Option<usize>)
    ensures
        match r {
            Some(i) => column_of(strings_view(h@), name@) == Some(i as int),
            None => column_of(strings_view(h@), name@) is None,
        },
{
    let want = name.to_owned();
    let mut i: usize = 0;
    while i < h.len()
        invariant
            i <= h@.len(),
            want@ == name@,
            column_of(strings_view(h@).subrange(0, i as int), name@) is None,
        decreases h@.len() - i,
    {
        proof {
            assert(strings_view(h@).subrange(0, i + 1).drop_last() =~= strings_view(h@).subrange(0, i as int));
        }
        if h[i] == want {
            proof { lemma_column_prefix(strings_view(h@), name@, i as int + 1); }
            return Some(i);
        }
        i = i + 1;
    }
    assert(strings_view(h@).subrange(0, h@.len() as int) =~= strings_view(h@));
    None
}

/// Where a prefix of a header already has the column, so has the whole header.
proof fn lemma_column_prefix(h: Seq<Seq<char>>, name: Seq<char>, n: int)
    requires
        0 <= n <= h.len(),
        column_of(h.subrange(0, n), name) is Some,
    ensures
        column_of(h, name) == column_of(h.subrange(0, n), name),
    decreases h.len() - n,
{
    if n < h.len() {
        assert(h.subrange(0, n + 1).drop_last() =~= h.subrange(0, n));
        lemma_column_prefix(h, name, n + 1);
    } else {
        assert(h.subrange(0, n) =~= h);
    }
}

/// Relies on std::time::SystemTime::now, as nanoseconds since the Unix
/// epoch. Nothing is promised of the value.
#[verifier::external_body]
pub(crate) fn clock_now() -> (r: u64) {
    SystemTime::now().duration_since(UNIX_EPOCH).map_or(0, |d| d.as_nanos() as u64)
}

/// Relies on rand::Rng::gen_range over the thread's generator: an index below `n`.
#[verifier::external_body]
fn random_below(n: usize) -> (r: usize)
    requires
        n > 0,
    ensures
        r < n,
{
    rand::thread_rng().gen_range(0..n)
}

/// The owner of a key and the instant it expires.
pub struct KeyMeta {
    pub uname: String,
    pub expiry: u64,
}

impl View for KeyMeta {
    type V = (Seq<char>, u64);

    open spec fn view(&self) -> (Seq<char>, u64) {
        (self.uname@, self.expiry)
    }
}

/// A session-key database: keys with their owner and expiry, a flag that
/// says whether it changed since it was last saved, the path of the file
/// it is saved to, and how new keys are made.
pub struct KeyAuth {
    keys: Table<KeyMeta>,
    kfile: String,
    kdirty: bool,
    klen: usize,
    kchars: Vec<char>,
    klife: u64,
}

impl KeyAuth {
    /// Every key with its owner and expiry.
    pub closed spec fn keys(&self) -> Map<Seq<char>, (Seq<char>, u64)> {
        self.keys@
    }

    /// Whether the database changed since it was last saved.
    pub closed spec fn dirty(&self) -> bool {
        self.kdirty
    }

    /// The path of the file that the database is saved to.
    pub closed spec fn path(&self) -> Seq<char> {
        self.kfile@
    }

    /// The length of generated keys.
    pub closed spec fn key_length(&self) -> nat {
        self.klen as nat
    }

    /// The characters generated keys are drawn from.
    pub closed spec fn key_chars(&self) -> Seq<char> {
        self.kchars@
    }

    /// The lifetime of a new or refreshed key, in nanoseconds.
    pub closed spec fn lifetime(&self) -> u64 {
        self.klife
    }

    /// The table's keys are unique.
    pub closed spec fn wf(&self) -> bool {
        self.keys.wf()
    }

    /// A well-formed database holds finitely many keys.
    pub proof fn lemma_keys_finite(&self)
        requires
            self.wf(),
        ensures
            self.keys().dom().finite(),
    {
        self.keys.lemma_entries();
    }

    /// The configuration and path are those of `other`.
    pub open spec fn same_setup(&self, other: &Self) -> bool {
        &&& self.path() == other.path()
        &&& self.key_length() == other.key_length()
        &&& self.key_chars() == other.key_chars()
        &&& self.lifetime() == other.lifetime()
    }

    /// An empty database with the default configuration, saved to `file`; not dirty.
    pub fn blank(file: &str) -> (a: Self)
        ensures
            a.wf(),
            a.keys() == Map::<Seq<char>, (Seq<char>, u64)>::empty(),
            !a.dirty(),
            a.path() == file@,
            a.key_length() == DEFAULT_KEY_LENGTH,
            a.key_chars() == default_key_chars(),
            a.lifetime() == DEFAULT_KEY_LIFE,
    {
        KeyAuth::with_table(file, Table::new())
    }

    fn with_table(file: &str, keys: Table<KeyMeta>) -> (a: Self)
        requires
            keys.wf(),
        ensures
            a.wf(),
            a.keys() == keys@,
            !a.dirty(),
            a.path() == file@,
            a.key_length() == DEFAULT_KEY_LENGTH,
            a.key_chars() == default_key_chars(),
            a.lifetime() == DEFAULT_KEY_LIFE,
    {
        let chars = vec!['a', 'b', 'c', 'd', 'e', 'f', 'g', 'h', 'i', 'j', 'k', 'l', 'm', 'n', 'o', 'p', 'q', 'r', 's',
            't', 'u', 'v', 'w', 'x', 'y', 'z', 'A', 'B', 'C', 'D', 'E', 'F', 'G', 'H', 'I', 'J', 'K', 'L',
            'M', 'N', 'O', 'P', 'Q', 'R', 'S', 'T', 'U', 'V', 'W', 'X', 'Y', 'Z', '0', '1', '2', '3', '4',
            '5', '6', '7', '8', '9', '/', '?', ':', ';', '[', ']', '{', '}', '|', '-', '_', '#', '^'];
        assert(chars@ =~= default_key_chars());
        KeyAuth {
            keys,
            kfile: file.to_owned(),
            kdirty: false,
            klen: DEFAULT_KEY_LENGTH,
            kchars: chars,
            klife: DEFAULT_KEY_LIFE,
        }
    }

    /// The database that the text of a key file holds, dropping the keys
    /// expired at `now`; not dirty, default configuration. Rows that lack a
    /// field or whose expiry cannot be read are skipped; of two rows for one
    /// key the later wins.
    pub fn load_at(file: &str, data: &[u8], now: u64) -> (a: Self)
        ensures
            a.wf(),
            a.keys() == keys_of_file(data@, now),
            !a.dirty(),
            a.path() == file@,
            a.key_length() == DEFAULT_KEY_LENGTH,
            a.key_chars() == default_key_chars(),
            a.lifetime() == DEFAULT_KEY_LIFE,
    {
        let rows = decode_rows(data);
        let ghost all = csv_rows(data@);
        let mut keys: Table<KeyMeta> = Table::new();
        if rows.len() == 0 {
            return KeyAuth::with_table(file, keys);
        }
        let (ck, ce, cu) = match &rows[0] {
            None => {
                return KeyAuth::with_table(file, keys);
            },
            Some(h) => {
                proof {
                    reveal_strlit("key");
                    reveal_strlit("expiry");
                    reveal_strlit("uname");
                    assert(all[0] == Some(strings_view(h@)));
                    assert("key"@ =~= key_header()[0]);
                    assert("expiry"@ =~= key_header()[1]);
                    assert("uname"@ =~= key_header()[2]);
                }
                let fk = find_column(h, "key");
                let fe = find_column(h, "expiry");
                let fu = find_column(h, "uname");
                match (fk, fe, fu) {
                    (Some(a), Some(b), Some(c)) => {
                        assert(column_of(all[0].unwrap(), key_header()[0]) == Some(a as int));
                        assert(column_of(all[0].unwrap(), key_header()[1]) == Some(b as int));
                        (a, b, c)
                    },
                    _ => {
                        return KeyAuth::with_table(file, keys);
                    },
                }
            },
        };
        let mut i: usize = 1;
        while i < rows.len()
            invariant
                rows@.len() == all.len() > 0,
                forall|j: int| 0 <= j < rows@.len() ==> match #[trigger] rows@[j] {
                    Some(f) => all[j] == Some(strings_view(f@)),
                    None => all[j] is None,
                },
                1 <= i <= rows@.len(),
                all[0] is Some,
                column_of(all[0].unwrap(), key_header()[0]) == Some(ck as int),
                column_of(all[0].unwrap(), key_header()[1]) == Some(ce as int),
                column_of(all[0].unwrap(), key_header()[2]) == Some(cu as int),
                keys.wf(),
                keys@ == keys_of_rows(all.subrange(1, i as int), ck as int, ce as int, cu as int, now),
            decreases rows@.len() - i,
        {
            proof {
                assert(all.subrange(1, i + 1).drop_last() =~= all.subrange(1, i as int));
                assert(all.subrange(1, i + 1).last() == all[i as int]);
            }
            match &rows[i] {
                Some(f) => {
                    if ck < f.len() && ce < f.len() && cu < f.len() {
                        match time_value(f[ce].as_str()) {
                            Some(t) => {
                                if t > now {
                                    keys.insert(f[ck].clone(), KeyMeta { uname: f[cu].clone(), expiry: t });
                                }
                            },
                            None => {},
                        }
                    }
                },
                None => {},
            }
            i = i + 1;
        }
        proof {
            assert(all.subrange(1, all.len() as int) =~= all.drop_first());
        }
        KeyAuth::with_table(file, keys)
    }

    /// The text of the key file at instant `now`: the header row, then one
    /// row per key still valid at `now`, holding the key, its expiry as an
    /// RFC 3339 timestamp, and its owner.
    pub fn encode_at(&self, now: u64) -> (b: Vec<u8>)
        requires
            self.wf(),
        ensures
            key_file_text(b@, live_keys(self.keys(), now)),
            forall|k: Seq<char>| #[trigger] live_keys(self.keys(), now).contains_key(k) ==>
                rfc3339_value(rfc3339_text(self.keys()[k].1)) == Some(self.keys()[k].1),
    {
        let mut out: Vec<u8> = Vec::new();
        let mut header: Vec<String> = Vec::new();
        header.push("key".to_owned());
        header.push("expiry".to_owned());
        header.push("uname".to_owned());
        proof {
            reveal_strlit("key");
            reveal_strlit("expiry");
            reveal_strlit("uname");
            assert(header@[0]@ =~= seq!['k', 'e', 'y']);
            assert(header@[1]@ =~= seq!['e', 'x', 'p', 'i', 'r', 'y']);
            assert(header@[2]@ =~= seq!['u', 'n', 'a', 'm', 'e']);
            assert(strings_view(header@) =~= key_header());
            assert(seq![key_header()].drop_last() =~= Seq::<Seq<Seq<char>>>::empty());
        }
        push_record(&mut out, &header, Ghost(Seq::empty()));
        assert(seq![key_header()] =~= Seq::<Seq<Seq<char>>>::empty().push(key_header()));
        proof { self.keys.lemma_entries(); }
        let ghost ents = self.keys.seq();
        let ghost live = live_keys(self.keys(), now);
        let ghost mut rows: Seq<Seq<Seq<char>>> = Seq::empty();
        let ghost mut idx: Seq<int> = Seq::empty();
        let n = self.keys.len();
        let mut i: usize = 0;
        while i < n
            invariant
                self.wf(),
                n == ents.len(),
                ents == self.keys.seq(),
                live == live_keys(self.keys(), now),
                i <= n,
                rows.len() == idx.len(),
                forall|j: int| 0 <= j < idx.len() ==> 0 <= #[trigger] idx[j] < i && !expired(ents[idx[j]].1.expiry, now)
                    && rows[j] == seq![ents[idx[j]].0@, rfc3339_text(ents[idx[j]].1.expiry), ents[idx[j]].1.uname@],
                forall|a: int, b: int| 0 <= a < b < idx.len() ==> idx[a] < idx[b],
                forall|j: int| 0 <= j < i && !expired((#[trigger] ents[j]).1.expiry, now) ==>
                    rfc3339_value(rfc3339_text(ents[j].1.expiry)) == Some(ents[j].1.expiry),
                forall|j: int| 0 <= j < i && !expired((#[trigger] ents[j]).1.expiry, now) ==>
                    exists|x: int| 0 <= x < idx.len() && idx[x] == j,
                out@ == csv_text(seq![key_header()] + rows),
            decreases n - i,
        {
            let e = self.keys.entry(i);
            let ghost idx0 = idx;
            if e.1.expiry > now {
                let mut fields: Vec<String> = Vec::new();
                fields.push(e.0.clone());
                fields.push(time_text(e.1.expiry));
                fields.push(e.1.uname.clone());
                let ghost row = seq![ents[i as int].0@, rfc3339_text(ents[i as int].1.expiry), ents[i as int].1.uname@];
                assert(strings_view(fields@) =~= row);
                push_record(&mut out, &fields, Ghost(seq![key_header()] + rows));
                proof {
                    assert(seq![key_header()] + rows.push(row) =~= (seq![key_header()] + rows).push(row));
                    rows = rows.push(row);
                    idx = idx.push(i as int);
                }
            }
            proof {
                assert forall|j: int| 0 <= j < i + 1 && !expired((#[trigger] ents[j]).1.expiry, now) implies
                    exists|x: int| 0 <= x < idx.len() && idx[x] == j by {
                    if j < i {
                        let x = choose|x: int| 0 <= x < idx0.len() && idx0[x] == j;
                        assert(idx[x] == idx0[x]);
                    } else {
                        assert(idx[idx.len() - 1] == j);
                    }
                }
            }
            i = i + 1;
        }
        proof {
            self.keys.lemma_entries();
            assert forall|j: int| 0 <= j < rows.len() implies (#[trigger] rows[j]).len() == 3 && live.contains_key(rows[j][0])
                && rows[j] == seq![rows[j][0], rfc3339_text(live[rows[j][0]].1), live[rows[j][0]].0] by {
                let x = idx[j];
                assert(self.keys().contains_key(ents[x].0@));
                assert(live.contains_key(ents[x].0@));
            }
            assert forall|k: Seq<char>| #[trigger] live.contains_key(k) implies exists|j: int|
                0 <= j < rows.len() && (#[trigger] rows[j])[0] == k by {
                let y = choose|y: int| 0 <= y < ents.len() && (#[trigger] ents[y]).0@ == k;
                let x = choose|x: int| 0 <= x < idx.len() && idx[x] == y;
                assert(rows[x][0] == k);
            }
            assert forall|a: int, b: int| 0 <= a < rows.len() && 0 <= b < rows.len() && a != b implies
                (#[trigger] rows[a])[0] != (#[trigger] rows[b])[0] by {
                if a < b {
                    assert(idx[a] < idx[b]);
                } else {
                    assert(idx[b] < idx[a]);
                }
                assert(ents[idx[a]].0@ != ents[idx[b]].0@);
            }
            assert(lists_keys(rows, live));
            assert forall|k: Seq<char>| #[trigger] live.contains_key(k) implies
                rfc3339_value(rfc3339_text(self.keys()[k].1)) == Some(self.keys()[k].1) by {
                let y = choose|y: int| 0 <= y < ents.len() && (#[trigger] ents[y]).0@ == k;
                assert(self.keys()[k].1 == ents[y].1.expiry);
            }
        }
        out
    }

    /// The database that the text of a key file holds, dropping the keys
    /// expired now.
    pub fn load(file: &str, data: &[u8]) -> (a: Self)
        ensures
            a.wf(),
            exists|now: u64| a.keys() == keys_of_file(data@, now),
            !a.dirty(),
            a.path() == file@,
            a.key_length() == DEFAULT_KEY_LENGTH,
            a.key_chars() == default_key_chars(),
            a.lifetime() == DEFAULT_KEY_LIFE,
    {
        let now = clock_now();
        KeyAuth::load_at(file, data, now)
    }

    /// The text of the key file now: the keys still valid now.
    pub fn encode(&self) -> (b: Vec<u8>)
        requires
            self.wf(),
        ensures
            exists|now: u64| key_file_text(b@, live_keys(self.keys(), now)),
    {
        let now = clock_now();
        let b = self.encode_at(now);
        assert(key_file_text(b@, live_keys(self.keys(), now)));
        b
    }

    /// Records the outcome of writing the file: a success clears the dirty
    /// flag, a failure leaves it as it was. Hands the outcome back.
    pub fn finish_save(&mut self, written: Result<(), FileError>) -> (r: Result<(), FileError>)
        ensures
            r == written,
            final(self).keys() == old(self).keys(),
            final(self).same_setup(&*old(self)),
            final(self).wf() == old(self).wf(),
            final(self).dirty() == (old(self).dirty() && written is Err),
    {
        if written.is_ok() {
            self.kdirty = false;
        }
        written
    }

    /// Changes the length of generated keys.
    pub fn length(&mut self, key_length: usize)
        ensures
            final(self).key_length() == key_length,
            final(self).keys() == old(self).keys(),
            final(self).wf() == old(self).wf(),
            final(self).dirty() == old(self).dirty(),
            final(self).path() == old(self).path(),
            final(self).key_chars() == old(self).key_chars(),
            final(self).lifetime() == old(self).lifetime(),
    {
        self.klen = key_length;
    }

    /// Changes the characters that keys are drawn from. Keys can only be
    /// issued while this set is not empty.
    pub fn chars(&mut self, key_chars: &str)
        ensures
            final(self).key_chars() == key_chars@,
            final(self).keys() == old(self).keys(),
            final(self).wf() == old(self).wf(),
            final(self).dirty() == old(self).dirty(),
            final(self).path() == old(self).path(),
            final(self).key_length() == old(self).key_length(),
            final(self).lifetime() == old(self).lifetime(),
    {
        let n = key_chars.unicode_len();
        let mut v: Vec<char> = Vec::new();
        let mut i: usize = 0;
        while i < n
            invariant
                n == key_chars@.len(),
                i <= n,
                v@ =~= key_chars@.subrange(0, i as int),
            decreases n - i,
        {
            v.push(key_chars.get_char(i));
            i = i + 1;
        }
        self.kchars = v;
    }

    /// Changes the lifetime of new and refreshed keys, given in nanoseconds.
    pub fn life(&mut self, key_life: u64)
        ensures
            final(self).lifetime() == key_life,
            final(self).keys() == old(self).keys(),
            final(self).wf() == old(self).wf(),
            final(self).dirty() == old(self).dirty(),
            final(self).path() == old(self).path(),
            final(self).key_length() == old(self).key_length(),
            final(self).key_chars() == old(self).key_chars(),
    {
        self.klife = key_life;
    }

    /// Issues a new key for `uname` at instant `now` and marks the database
    /// dirty. A key equal to one already stored replaces it.
    pub fn issue_key_at(&mut self, uname: &str, now: u64) -> (key: String)
        requires
            old(self).wf(),
            old(self).key_chars().len() > 0,
        ensures
            KeyAuth::issue_step(*old(self), *final(self), uname@, now, key@),
    {
        let mut v: Vec<char> = Vec::new();
        let n = self.kchars.len();
        let mut i: usize = 0;
        while i < self.klen
            invariant
                n == self.kchars@.len() > 0,
                i <= self.klen,
                v@.len() == i,
                forall|j: int| 0 <= j < i ==> self.kchars@.contains(#[trigger] v@[j]),
            decreases self.klen - i,
        {
            let c = self.kchars[random_below(n)];
            v.push(c);
            i = i + 1;
        }
        let key = string_from_chars(&v);
        let expiry = if now > u64::MAX - self.klife { u64::MAX } else { now + self.klife };
        self.keys.insert(key.clone(), KeyMeta { uname: uname.to_owned(), expiry });
        self.kdirty = true;
        key
    }

    /// Issues a new key for `uname`, valid for the configured lifetime from
    /// now, and marks the database dirty.
    pub fn issue_key(&mut self, uname: &str) -> (key: String)
        requires
            old(self).wf(),
            old(self).key_chars().len() > 0,
        ensures
            exists|now: u64| KeyAuth::issue_step(*old(self), *final(self), uname@, now, key@),
    {
        let now = clock_now();
        self.issue_key_at(uname, now)
    }

    /// Moves the expiry of a key valid at `now` a year back, so that it is no
    /// longer valid, and marks the database dirty.
    pub fn invalidate_key_at(&mut self, key: &str, now: u64) -> (r: Result<(), DataError>)
        requires
            old(self).wf(),
        ensures
            KeyAuth::invalidate_step(*old(self), *final(self), key@, now, r),
    {
        let uname = match self.keys.get(key) {
            None => {
                return Err(DataError::NoSuchKey);
            },
            Some(meta) => {
                if meta.expiry <= now {
                    return Err(DataError::KeyExpired);
                }
                meta.uname.clone()
            },
        };
        let expiry = if now < ONE_YEAR { 0 } else { now - ONE_YEAR };
        self.keys.insert(key.to_owned(), KeyMeta { uname, expiry });
        self.kdirty = true;
        Ok(())
    }

    /// Invalidates a key that is valid now.
    pub fn invalidate_key(&mut self, key: &str) -> (r: Result<(), DataError>)
        requires
            old(self).wf(),
        ensures
            exists|now: u64| KeyAuth::invalidate_step(*old(self), *final(self), key@, now, r),
    {
        let now = clock_now();
        self.invalidate_key_at(key, now)
    }

    /// Removes a key and marks the database dirty; `NoSuchKey`, changing
    /// nothing, where it is absent.
    pub fn remove_key(&mut self, key: &str) -> (r: Result<(), DataError>)
        requires
            old(self).wf(),
        ensures
            final(self).wf(),
            final(self).same_setup(&*old(self)),
            match r {
                Ok(()) => old(self).keys().contains_key(key@)
                    && final(self).keys() == old(self).keys().remove(key@) && final(self).dirty(),
                Err(e) => e == DataError::NoSuchKey && !old(self).keys().contains_key(key@)
                    && final(self).keys() == old(self).keys() && final(self).dirty() == old(self).dirty(),
            },
    {
        if self.keys.remove(key) {
            self.kdirty = true;
            Ok(())
        } else {
            Err(DataError::NoSuchKey)
        }
    }

    /// Checks a key for `uname` at instant `now`: `NoSuchKey`, then
    /// `BadUsername`, then `KeyExpired`, else `Ok`.
    pub fn check_key_at(&self, key: &str, uname: &str, now: u64) -> (r: Result<(), DataError>)
        requires
            self.wf(),
        ensures
            r == key_verdict(self.keys(), key@, uname@, now),
    {
        match self.keys.get(key) {
            None => Err(DataError::NoSuchKey),
            Some(meta) => {
                if meta.uname != uname.to_owned() {
                    Err(DataError::BadUsername)
                } else if meta.expiry <= now {
                    Err(DataError::KeyExpired)
                } else {
                    Ok(())
                }
            },
        }
    }

    /// Checks a key for `uname` now.
    pub fn check_key(&self, key: &str, uname: &str) -> (r: Result<(), DataError>)
        requires
            self.wf(),
        ensures
            exists|now: u64| r == key_verdict(self.keys(), key@, uname@, now),
    {
        let now = clock_now();
        self.check_key_at(key, uname, now)
    }

    /// Makes a present key expire `now` plus the lifetime.
    pub fn refresh_key_at(&mut self, key: &str, now: u64) -> (r: Result<(), DataError>)
        requires
            old(self).wf(),
        ensures
            KeyAuth::refresh_step(*old(self), *final(self), key@, now, r),
    {
        let uname = match self.keys.get(key) {
            None => {
                return Err(DataError::NoSuchKey);
            },
            Some(meta) => meta.uname.clone(),
        };
        let expiry = if now > u64::MAX - self.klife { u64::MAX } else { now + self.klife };
        self.keys.insert(key.to_owned(), KeyMeta { uname, expiry });
        Ok(())
    }

    /// Makes a present key expire the lifetime from now.
    pub fn refresh_key(&mut self, key: &str) -> (r: Result<(), DataError>)
        requires
            old(self).wf(),
        ensures
            exists|now: u64| KeyAuth::refresh_step(*old(self), *final(self), key@, now, r),
    {
        let now = clock_now();
        self.refresh_key_at(key, now)
    }

    /// Checks a key for `uname` at `now` and, where it passes, makes it
    /// expire `now` plus the lifetime.
    pub fn check_and_refresh_key_at(&mut self, key: &str, uname: &str, now: u64) -> (r: Result<(), DataError>)
        requires
            old(self).wf(),
        ensures
            KeyAuth::check_refresh_step(*old(self), *final(self), key@, uname@, now, r),
    {
        let r = self.check_key_at(key, uname, now);
        if r.is_ok() {
            let expiry = if now > u64::MAX - self.klife { u64::MAX } else { now + self.klife };
            self.keys.insert(key.to_owned(), KeyMeta { uname: uname.to_owned(), expiry });
        }
        r
    }

    /// Checks a key for `uname` now and, where it passes, refreshes it.
    pub fn check_and_refresh_key(&mut self, key: &str, uname: &str) -> (r: Result<(), DataError>)
        requires
            old(self).wf(),
        ensures
            exists|now: u64| KeyAuth::check_refresh_step(*old(self), *final(self), key@, uname@, now, r),
    {
        let now = clock_now();
        self.check_and_refresh_key_at(key, uname, now)
    }

    /// Removes every key expired at `now`; marks the database dirty where
    /// one was removed.
    pub fn cull_keys_at(&mut self, now: u64)
        requires
            old(self).wf(),
        ensures
            KeyAuth::cull_step(*old(self), *final(self), now),
    {
        let ghost pre = self.keys@;
        let ghost ents = self.keys.seq();
        proof { self.keys.lemma_entries(); }
        let mut doomed: Vec<String> = Vec::new();
        let n = self.keys.len();
        let mut i: usize = 0;
        while i < n
            invariant
                self.keys.wf(),
                self.keys@ == pre,
                ents == self.keys.seq(),
                n == ents.len(),
                i <= n,
                forall|j: int| 0 <= j < doomed@.len() ==> pre.contains_key(#[trigger] doomed@[j]@)
                    && expired(pre[doomed@[j]@].1, now),
                forall|j: int| 0 <= j < i && expired((#[trigger] ents[j]).1.expiry, now) ==>
                    exists|d: int| 0 <= d < doomed@.len() && doomed@[d]@ == ents[j].0@,
            decreases n - i,
        {
            let e = self.keys.entry(i);
            let ghost before = doomed@;
            proof { self.keys.lemma_entries(); }
            if e.1.expiry <= now {
                doomed.push(e.0.clone());
                assert(doomed@[doomed@.len() - 1]@ == ents[i as int].0@);
            }
            proof {
                assert forall|j: int| 0 <= j < i + 1 && expired((#[trigger] ents[j]).1.expiry, now) implies
                    exists|d: int| 0 <= d < doomed@.len() && doomed@[d]@ == ents[j].0@ by {
                    if j < i {
                        let d = choose|d: int| 0 <= d < before.len() && before[d]@ == ents[j].0@;
                        assert(doomed@[d] == before[d]);
                    } else {
                        assert(doomed@[doomed@.len() - 1]@ == ents[j].0@);
                    }
                }
            }
            i = i + 1;
        }
        let ghost gone = Set::new(|k: Seq<char>| exists|d: int| 0 <= d < doomed@.len() && (#[trigger] doomed@[d])@ == k);
        proof {
            self.keys.lemma_entries();
            assert forall|k: Seq<char>| pre.contains_key(k) implies (gone.contains(k) <==> expired(pre[k].1, now)) by {
                if expired(pre[k].1, now) {
                    let j = choose|j: int| 0 <= j < ents.len() && (#[trigger] ents[j]).0@ == k;
                    assert(expired(ents[j].1.expiry, now));
                }
            }
        }
        let m = doomed.len();
        let mut d: usize = 0;
        while d < m
            invariant
                self.keys.wf(),
                self.kfile == old(self).kfile,
                self.klen == old(self).klen,
                self.kchars == old(self).kchars,
                self.klife == old(self).klife,
                self.kdirty == old(self).kdirty,
                m == doomed@.len(),
                d <= m,
                forall|j: int| 0 <= j < m ==> pre.contains_key(#[trigger] doomed@[j]@) && expired(pre[doomed@[j]@].1, now),
                self.keys@ == pre.remove_keys(Set::new(|k: Seq<char>| exists|x: int| 0 <= x < d && (#[trigger] doomed@[x])@ == k)),
            decreases m - d,
        {
            let _ = self.keys.remove(doomed[d].as_str());
            proof {
                let s1 = Set::new(|k: Seq<char>| exists|x: int| 0 <= x < d && (#[trigger] doomed@[x])@ == k);
                let s2 = Set::new(|k: Seq<char>| exists|x: int| 0 <= x < d + 1 && (#[trigger] doomed@[x])@ == k);
                assert(s2 =~= s1.insert(doomed@[d as int]@));
                assert(self.keys@ =~= pre.remove_keys(s2));
            }
            d = d + 1;
        }
        proof {
            let s1 = Set::new(|k: Seq<char>| exists|x: int| 0 <= x < m && (#[trigger] doomed@[x])@ == k);
            assert(s1 =~= gone);
            assert(self.keys@ =~= live_keys(pre, now));
            assert(old(self).keys() == pre);
            if m > 0 {
                let k0 = doomed@[0]@;
                assert(old(self).keys().contains_key(k0) && expired(old(self).keys()[k0].1, now));
                assert(exists|k: Seq<char>| #[trigger] old(self).keys().contains_key(k) && expired(old(self).keys()[k].1, now));
            } else {
                assert forall|k: Seq<char>| #[trigger] pre.contains_key(k) implies !expired(pre[k].1, now) by {
                    assert(!gone.contains(k));
                }
            }
        }
        if m > 0 {
            self.kdirty = true;
        }
    }

    /// Removes every key expired now; marks the database dirty where one was removed.
    pub fn cull_keys(&mut self)
        requires
            old(self).wf(),
        ensures
            exists|now: u64| KeyAuth::cull_step(*old(self), *final(self), now),
    {
        let now = clock_now();
        self.cull_keys_at(now)
    }

    /// Whether the database changed since it was last saved.
    pub fn is_dirty(&self) -> (r: bool)
        ensures
            r == self.dirty(),
    {
        self.kdirty
    }

    /// The path of the file that the database is saved to.
    pub fn file(&self) -> (r: &str)
        ensures
            r@ == self.path(),
    {
        self.kfile.as_str()
    }
}

impl KeyAuth {
    /// Issuing: a fresh key of the configured length, drawn from the
    /// configured characters, bound to `uname` until `now` plus the lifetime.
    pub open spec fn issue_step(pre: KeyAuth, post: KeyAuth, uname: Seq<char>, now: u64, key: Seq<char>) -> bool {
        &&& post.wf()
        &&& post.same_setup(&pre)
        &&& key.len() == pre.key_length()
        &&& forall|i: int| 0 <= i < key.len() ==> pre.key_chars().contains(#[trigger] key[i])
        &&& post.keys() == pre.keys().insert(key, (uname, expiry_after(now, pre.lifetime())))
        &&& post.dirty()
    }

    /// Invalidating: a valid key gets an expiry a year back and the database
    /// turns dirty; an absent or expired key is refused and nothing changes.
    pub open spec fn invalidate_step(pre: KeyAuth, post: KeyAuth, key: Seq<char>, now: u64, r: Result<(), DataError>) -> bool {
        &&& post.wf()
        &&& post.same_setup(&pre)
        &&& match r {
            Ok(()) => pre.keys().contains_key(key) && !expired(pre.keys()[key].1, now)
                && post.keys() == pre.keys().insert(key, (pre.keys()[key].0, expiry_invalidated(now)))
                && post.dirty(),
            Err(e) => post.keys() == pre.keys() && post.dirty() == pre.dirty()
                && if !pre.keys().contains_key(key) {
                    e == DataError::NoSuchKey
                } else {
                    e == DataError::KeyExpired && expired(pre.keys()[key].1, now)
                },
        }
    }

    /// Refreshing: a present key expires `now` plus the lifetime, whatever
    /// its owner or state; the dirty flag stays as it was.
    pub open spec fn refresh_step(pre: KeyAuth, post: KeyAuth, key: Seq<char>, now: u64, r: Result<(), DataError>) -> bool {
        &&& post.wf()
        &&& post.same_setup(&pre)
        &&& post.dirty() == pre.dirty()
        &&& match r {
            Ok(()) => pre.keys().contains_key(key)
                && post.keys() == pre.keys().insert(key, (pre.keys()[key].0, expiry_after(now, pre.lifetime()))),
            Err(e) => e == DataError::NoSuchKey && !pre.keys().contains_key(key) && post.keys() == pre.keys(),
        }
    }

    /// Checking, then refreshing only where the check passed; the dirty
    /// flag stays as it was.
    pub open spec fn check_refresh_step(pre: KeyAuth, post: KeyAuth, key: Seq<char>, uname: Seq<char>, now: u64, r: Result<(), DataError>) -> bool {
        &&& post.wf()
        &&& post.same_setup(&pre)
        &&& post.dirty() == pre.dirty()
        &&& r == key_verdict(pre.keys(), key, uname, now)
        &&& r is Ok ==> post.keys() == pre.keys().insert(key, (uname, expiry_after(now, pre.lifetime())))
        &&& r is Err ==> post.keys() == pre.keys()
    }

    /// Culling: the keys expired at `now` leave; the database turns dirty
    /// where one did.
    pub open spec fn cull_step(pre: KeyAuth, post: KeyAuth, now: u64) -> bool {
        &&& post.wf()
        &&& post.same_setup(&pre)
        &&& post.keys() == live_keys(pre.keys(), now)
        &&& post.dirty() == (pre.dirty() || exists|k: Seq<char>| #[trigger] pre.keys().contains_key(k) && expired(pre.keys()[k].1, now))
    }
}

} // verus!
