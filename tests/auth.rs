use authlite::digest::{from_hex, to_hex};
use authlite::{BothAuth, DataError, FileError, KeyAuth, PwdAuth, SaveAction, Store};
use std::collections::HashMap;

const NEW_USERS_FILE: &str = "test/new_users.csv";
const NEW_KEYS_FILE: &str = "test/new_keys.csv";

const UNAMES_AND_PWDS: &[[&str; 2]] = &[["ted", "frogs"], ["eyes2", "google"], ["qwert", "asdfjkl;"]];

const DEFAULT_CHARS: &str = "abcdefghijklmnopqrstuvwxyzABCDEFGHIJKLMNOPQRSTUVWXYZ0123456789/?:;[]{}|-_#^";

/// Saves the credential store into `file`, as a write that succeeds would.
fn save_pwd(a: &mut PwdAuth, file: &mut Vec<u8>) {
    let bytes = a.encode();
    *file = bytes;
    a.finish_save(Ok(())).unwrap();
}

/// Saves the key store into `file`, as a write that succeeds would.
fn save_keys(a: &mut KeyAuth, file: &mut Vec<u8>) {
    let bytes = a.encode();
    *file = bytes;
    a.finish_save(Ok(())).unwrap();
}

/// Saves whichever store of `a` is dirty, each write succeeding.
fn save_both(a: &mut BothAuth, pfile: &mut Vec<u8>, kfile: &mut Vec<u8>) {
    let mut outcome = None;
    loop {
        match a.save_step(outcome) {
            SaveAction::Finished(r) => {
                r.unwrap();
                return;
            },
            SaveAction::Write(store, _path, bytes) => {
                match store {
                    Store::Credentials => *pfile = bytes,
                    Store::Keys => *kfile = bytes,
                }
                outcome = Some((store, Ok(())));
            },
        }
    }
}

#[test]
fn pwd_auth() {
    let salt = "xslt";
    let mut file: Vec<u8> = Vec::new();

    let mut a = PwdAuth::blank(NEW_USERS_FILE);
    for unp in UNAMES_AND_PWDS.iter() {
        a.add_user(unp[0], unp[1], salt.as_bytes()).unwrap();
    }

    let uname = UNAMES_AND_PWDS[0][0];
    assert_eq!(a.add_user(uname, "doesn't matter", "same".as_bytes()), Err(DataError::UserExists));

    assert_eq!(a.is_dirty(), true);
    save_pwd(&mut a, &mut file);
    assert_eq!(a.is_dirty(), false);

    let mut a = PwdAuth::load(NEW_USERS_FILE, &file);
    for unp in UNAMES_AND_PWDS.iter() {
        a.check_password(unp[0], unp[1], salt.as_bytes()).unwrap();
    }

    a.delete_user(uname).unwrap();
    assert_eq!(a.delete_user(uname), Err(DataError::NoSuchUser));

    assert_eq!(a.is_dirty(), true);
    save_pwd(&mut a, &mut file);
    assert_eq!(a.is_dirty(), false);

    let a = PwdAuth::load(NEW_USERS_FILE, &file);
    assert_eq!(a.is_dirty(), false);
    assert_eq!(a.check_password(uname, UNAMES_AND_PWDS[0][1], salt.as_bytes()), Err(DataError::NoSuchUser));

    let (uname, pass) = (UNAMES_AND_PWDS[1][0], UNAMES_AND_PWDS[1][1]);
    a.check_password(uname, pass, salt.as_bytes()).unwrap();
    assert_eq!(a.check_password(uname, "wrong password", salt.as_bytes()), Err(DataError::BadPassword));
    assert_eq!(a.check_password(uname, pass, "wrong salt".as_bytes()), Err(DataError::BadPassword));
    assert_eq!(a.is_dirty(), false);
}

#[test]
fn key_auth() {
    let mut file: Vec<u8> = Vec::new();
    let mut keyz: HashMap<String, String> = HashMap::new();

    let mut a = KeyAuth::blank(NEW_KEYS_FILE);
    assert_eq!(a.is_dirty(), false);
    for unp in UNAMES_AND_PWDS.iter() {
        let u = unp[0];
        let k = a.issue_key(u);
        keyz.insert(u.to_string(), k);
    }

    let uname = UNAMES_AND_PWDS[0][0];
    let key = keyz.get(uname).unwrap().clone();
    a.check_key(keyz.get(uname).unwrap(), uname).unwrap();
    a.invalidate_key(&key).unwrap();
    assert_eq!(a.check_key(&key, &uname), Err(DataError::KeyExpired));

    assert_eq!(a.is_dirty(), true);
    save_keys(&mut a, &mut file);
    assert_eq!(a.is_dirty(), false);

    let mut a = KeyAuth::load(NEW_KEYS_FILE, &file);
    assert_eq!(a.check_key(&key, &uname), Err(DataError::NoSuchKey));

    let uname = UNAMES_AND_PWDS[1][0];
    let key = keyz.get(uname).unwrap().clone();
    a.check_key(&key, &uname).unwrap();
    assert_eq!(a.is_dirty(), false);
    a.invalidate_key(&key).unwrap();
    assert_eq!(a.is_dirty(), true);
    assert_eq!(a.check_key(&key, &uname), Err(DataError::KeyExpired));

    a.cull_keys();
    assert_eq!(a.check_key(&key, &uname), Err(DataError::NoSuchKey));

    let uname = UNAMES_AND_PWDS[2][0];
    let key = keyz.get(uname).unwrap().clone();
    a.remove_key(&key).unwrap();
    assert_eq!(a.is_dirty(), true);
    assert_eq!(a.check_key(&key, &uname), Err(DataError::NoSuchKey));
}

#[test]
fn both_auth() {
    let salt = "node";
    let mut pfile: Vec<u8> = Vec::new();
    let mut kfile: Vec<u8> = Vec::new();

    let mut a = BothAuth::blank(NEW_USERS_FILE, NEW_KEYS_FILE);
    assert_eq!(a.pwd_dirty(), false);
    assert_eq!(a.key_dirty(), false);
    for unp in UNAMES_AND_PWDS.iter() {
        a.add_user(unp[0], unp[1], salt.as_bytes()).unwrap();
    }
    assert_eq!(a.pwd_dirty(), true);
    assert_eq!(a.key_dirty(), false);

    save_both(&mut a, &mut pfile, &mut kfile);
    assert_eq!(a.pwd_dirty(), false);
    assert_eq!(a.key_dirty(), false);

    for unp in UNAMES_AND_PWDS.iter() {
        a.delete_user(unp[0]).unwrap();
    }
    for unp in UNAMES_AND_PWDS.iter() {
        assert_eq!(a.check_password(unp[0], unp[1], salt.as_bytes()), Err(DataError::NoSuchUser));
    }
    assert_eq!(a.pwd_dirty(), true);
    assert_eq!(a.key_dirty(), false);

    let mut a = BothAuth::from_parts(PwdAuth::load(NEW_USERS_FILE, &pfile), KeyAuth::load(NEW_KEYS_FILE, &kfile));
    assert_eq!(a.pwd_dirty(), false);
    assert_eq!(a.key_dirty(), false);

    let mut keyz: HashMap<String, String> = HashMap::new();
    for unp in UNAMES_AND_PWDS.iter() {
        let k = a.check_password_and_issue_key(unp[0], unp[1], salt.as_bytes()).unwrap();
        keyz.insert(unp[0].to_string(), k);
    }
    assert_eq!(a.pwd_dirty(), false);
    assert_eq!(a.key_dirty(), true);
    save_both(&mut a, &mut pfile, &mut kfile);
    assert_eq!(a.pwd_dirty(), false);
    assert_eq!(a.key_dirty(), false);

    let (uname, _pass) = (UNAMES_AND_PWDS[0][0], UNAMES_AND_PWDS[0][1]);
    a.invalidate_key(keyz.get(uname).unwrap()).unwrap();
    assert_eq!(a.check_key(keyz.get(uname).unwrap(), uname), Err(DataError::KeyExpired));
    a.remove_key(keyz.get(uname).unwrap()).unwrap();
    assert_eq!(a.check_key(keyz.get(uname).unwrap(), uname), Err(DataError::NoSuchKey));
    assert_eq!(a.pwd_dirty(), false);
    assert_eq!(a.key_dirty(), true);

    let a = BothAuth::from_parts(PwdAuth::load(NEW_USERS_FILE, &pfile), KeyAuth::load(NEW_KEYS_FILE, &kfile));
    assert_eq!(a.pwd_dirty(), false);
    assert_eq!(a.key_dirty(), false);
    for unp in UNAMES_AND_PWDS.iter() {
        a.check_key(keyz.get(unp[0]).unwrap(), unp[0]).unwrap();
    }

    let mut a = a;
    assert_eq!(a.add_user(uname, "doesn't matter", salt.as_bytes()), Err(DataError::UserExists));
    assert_eq!(a.check_key("This will not be a key.", uname), Err(DataError::NoSuchKey));
}

#[test]
fn end_to_end_ted() {
    let mut a = BothAuth::blank("u.csv", "k.csv");
    let mut kfile: Vec<u8> = a.key_auth().encode();
    let mut pfile: Vec<u8> = a.pwd_auth().encode();
    a.add_user("ted", "frogs", "xslt".as_bytes()).unwrap();
    save_both(&mut a, &mut pfile, &mut kfile);
    let mut a = BothAuth::from_parts(PwdAuth::load("u.csv", &pfile), KeyAuth::load("k.csv", &kfile));
    let key = a.check_password_and_issue_key("ted", "frogs", "xslt".as_bytes()).unwrap();
    assert_eq!(key.chars().count(), 32);
    assert!(key.chars().all(|c| DEFAULT_CHARS.contains(c)));
    a.check_key(&key, "ted").unwrap();
    assert_eq!(a.check_key(&key, "eyes2"), Err(DataError::BadUsername));
    assert_eq!(a.check_key("bogus", "ted"), Err(DataError::NoSuchKey));
}

#[test]
fn password_survives_save_and_reopen() {
    let mut a = PwdAuth::blank("p.csv");
    a.add_user("alice", "secret", &[1, 2, 3]).unwrap();
    let bytes = a.encode();
    let b = PwdAuth::load("p.csv", &bytes);
    assert_eq!(b.check_password("alice", "secret", &[1, 2, 3]), Ok(()));
    assert_eq!(b.check_password("alice", "secreT", &[1, 2, 3]), Err(DataError::BadPassword));
    assert_eq!(b.check_password("alice", "secret", &[1, 2]), Err(DataError::BadPassword));
    assert_eq!(b.check_password("bob", "secret", &[1, 2, 3]), Err(DataError::NoSuchUser));
}

#[test]
fn add_twice_keeps_first_hash() {
    let mut a = PwdAuth::blank("p.csv");
    a.add_user("u", "one", b"s").unwrap();
    assert_eq!(a.add_user("u", "two", b"s"), Err(DataError::UserExists));
    assert_eq!(a.check_password("u", "one", b"s"), Ok(()));
    assert_eq!(a.check_password("u", "two", b"s"), Err(DataError::BadPassword));
    assert_eq!(a.user_exists("u"), Ok(()));
    assert_eq!(a.user_exists("v"), Err(DataError::NoSuchUser));
}

#[test]
fn dirty_flag_protocol() {
    let mut a = PwdAuth::blank("p.csv");
    assert!(!a.is_dirty());
    a.add_user("u", "p", b"s").unwrap();
    assert!(a.is_dirty());
    let failed = a.finish_save(Err(FileError::Write("p.csv".to_string())));
    assert_eq!(failed, Err(FileError::Write("p.csv".to_string())));
    assert!(a.is_dirty());
    a.finish_save(Ok(())).unwrap();
    assert!(!a.is_dirty());
    a.change_password("u", "q", b"s").unwrap();
    assert!(!a.is_dirty());
    assert_eq!(a.check_password("u", "q", b"s"), Ok(()));
    assert_eq!(a.change_password("nobody", "q", b"s"), Err(DataError::NoSuchUser));
    a.delete_user("u").unwrap();
    assert!(a.is_dirty());

    let mut k = KeyAuth::blank("k.csv");
    assert!(!k.is_dirty());
    let key = k.issue_key_at("u", 1_000);
    assert!(k.is_dirty());
    k.finish_save(Ok(())).unwrap();
    assert_eq!(k.refresh_key_at(&key, 2_000), Ok(()));
    assert!(!k.is_dirty());
    assert_eq!(k.check_and_refresh_key_at(&key, "u", 3_000), Ok(()));
    assert!(!k.is_dirty());
    k.cull_keys_at(4_000);
    assert!(!k.is_dirty());
    assert_eq!(k.refresh_key_at("nope", 2_000), Err(DataError::NoSuchKey));
}

#[test]
fn issued_key_checks_owner_first() {
    let mut k = KeyAuth::blank("k.csv");
    let key = k.issue_key_at("ann", 5_000);
    let life: u64 = 1_200_000_000_000;
    assert_eq!(k.check_key_at(&key, "ann", 5_000), Ok(()));
    assert_eq!(k.check_key_at(&key, "bob", 5_000), Err(DataError::BadUsername));
    assert_eq!(k.check_key_at(&key, "ann", 5_000 + life - 1), Ok(()));
    assert_eq!(k.check_key_at(&key, "ann", 5_000 + life), Err(DataError::KeyExpired));
    assert_eq!(k.check_key_at(&key, "bob", 5_000 + life), Err(DataError::BadUsername));
    assert_eq!(k.check_key_at("missing", "ann", 5_000), Err(DataError::NoSuchKey));
}

#[test]
fn invalidate_then_expired() {
    let mut k = KeyAuth::blank("k.csv");
    let key = k.issue_key_at("ann", 10_000);
    assert_eq!(k.invalidate_key_at(&key, 20_000), Ok(()));
    assert_eq!(k.check_key_at(&key, "ann", 20_000), Err(DataError::KeyExpired));
    assert_eq!(k.invalidate_key_at(&key, 20_000), Err(DataError::KeyExpired));
    assert_eq!(k.invalidate_key_at("missing", 20_000), Err(DataError::NoSuchKey));
    assert_eq!(k.refresh_key_at(&key, 30_000), Ok(()));
    assert_eq!(k.check_key_at(&key, "ann", 30_000), Ok(()));
}

#[test]
fn cull_removes_only_expired() {
    let mut k = KeyAuth::blank("k.csv");
    k.life(1_000_000_000);
    let early = k.issue_key_at("a", 0);
    let late = k.issue_key_at("b", 1);
    k.finish_save(Ok(())).unwrap();
    k.cull_keys_at(1_000_000_000);
    assert!(k.is_dirty());
    assert_eq!(k.check_key_at(&early, "a", 0), Err(DataError::NoSuchKey));
    assert_eq!(k.check_key_at(&late, "b", 1_000_000_000), Ok(()));
    assert_eq!(k.remove_key(&late), Ok(()));
    assert_eq!(k.remove_key(&late), Err(DataError::NoSuchKey));
}

#[test]
fn keys_round_trip_drops_expired() {
    let mut k = KeyAuth::blank("k.csv");
    let now: u64 = 1_700_000_000_123_456_789;
    let live = k.issue_key_at("ann", now);
    let dead = k.issue_key_at("bob", now);
    k.invalidate_key_at(&dead, now).unwrap();
    let bytes = k.encode_at(now);
    let text = String::from_utf8(bytes.clone()).unwrap();
    assert!(text.starts_with("key,expiry,uname\n"));
    assert!(text.contains("2023-11-14T22:33:20.123456789Z"));
    let r = KeyAuth::load_at("k.csv", &bytes, now);
    assert_eq!(r.check_key_at(&live, "ann", now), Ok(()));
    assert_eq!(r.check_key_at(&dead, "bob", now), Err(DataError::NoSuchKey));
    let later = KeyAuth::load_at("k.csv", &bytes, now + 1_200_000_000_000);
    assert_eq!(later.check_key_at(&live, "ann", now), Err(DataError::NoSuchKey));
}

#[test]
fn key_file_columns_by_name() {
    let data = b"uname,key,expiry\nann,abc,2100-01-01T00:00:00Z\nbob,xyz,not a time\nshort\n";
    let k = KeyAuth::load_at("k.csv", data, 0);
    assert_eq!(k.check_key_at("abc", "ann", 0), Ok(()));
    assert_eq!(k.check_key_at("xyz", "bob", 0), Err(DataError::NoSuchKey));
    let none = KeyAuth::load_at("k.csv", b"a,b,c\nabc,2100-01-01T00:00:00Z,ann\n", 0);
    assert_eq!(none.check_key_at("abc", "ann", 0), Err(DataError::NoSuchKey));
}

#[test]
fn credential_file_format() {
    let mut a = PwdAuth::blank("p.csv");
    assert_eq!(String::from_utf8(a.encode()).unwrap(), "uname,hash\n");
    a.add_user("ted", "frogs", b"xslt").unwrap();
    let text = String::from_utf8(a.encode()).unwrap();
    let line = text.lines().nth(1).unwrap();
    let hex = line.strip_prefix("ted,").unwrap();
    assert_eq!(hex.len(), 64);
    assert!(hex.chars().all(|c| c.is_ascii_hexdigit() && !c.is_ascii_uppercase()));
    let mut h = blake3::Hasher::new();
    h.update(b"frogs");
    h.update(b"xslt");
    assert_eq!(hex, h.finalize().to_hex().as_str());
}

#[test]
fn malformed_credential_rows_skipped() {
    let good = "0".repeat(64);
    let upper = "AB".repeat(32);
    let text = format!("uname,hash\nann,{}\nbob,zz\ncid,{}\ndan,{},extra\nann,{}\n", good, good, good, upper);
    let a = PwdAuth::load("p.csv", text.as_bytes());
    assert_eq!(a.user_exists("ann"), Ok(()));
    assert_eq!(a.user_exists("bob"), Err(DataError::NoSuchUser));
    assert_eq!(a.user_exists("cid"), Ok(()));
    assert_eq!(a.user_exists("dan"), Err(DataError::NoSuchUser));
    let again = String::from_utf8(a.encode()).unwrap();
    assert!(again.contains(&format!("ann,{}", "ab".repeat(32))));
}

#[test]
fn key_generation_settings() {
    let mut k = KeyAuth::blank("k.csv");
    k.length(5);
    k.chars("xy");
    let key = k.issue_key_at("u", 0);
    assert_eq!(key.chars().count(), 5);
    assert!(key.chars().all(|c| c == 'x' || c == 'y'));
    k.life(10_000_000_000);
    let key2 = k.issue_key_at("u", 0);
    assert_eq!(k.check_key_at(&key2, "u", 9_999_999_999), Ok(()));
    assert_eq!(k.check_key_at(&key2, "u", 10_000_000_000), Err(DataError::KeyExpired));
    assert_eq!(k.file(), "k.csv");
}

#[test]
fn issue_user_key_needs_user() {
    let mut a = BothAuth::blank("u.csv", "k.csv");
    assert_eq!(a.issue_user_key("ghost"), Err(DataError::NoSuchUser));
    assert!(!a.key_dirty());
    a.add_user("ann", "pw", b"s").unwrap();
    let k = a.issue_user_key_at("ann", 100).unwrap();
    assert_eq!(a.key_auth().check_key_at(&k, "ann", 100), Ok(()));
    assert_eq!(a.check_password_and_issue_key_at("ann", "bad", b"s", 100), Err(DataError::BadPassword));
    assert_eq!(a.check_password_and_issue_key_at("bob", "pw", b"s", 100), Err(DataError::NoSuchUser));
}

#[test]
fn save_if_dirty_order_and_first_failure() {
    let mut a = BothAuth::blank("u.csv", "k.csv");
    assert!(matches!(a.save_step(None), SaveAction::Finished(Ok(()))));
    a.add_user("ann", "pw", b"s").unwrap();
    let _ = a.issue_user_key_at("ann", 0).unwrap();
    assert!(a.pwd_dirty() && a.key_dirty());

    // The credential store is written first.
    match a.save_step(None) {
        SaveAction::Write(Store::Credentials, path, bytes) => {
            assert_eq!(path, "u.csv");
            assert!(String::from_utf8(bytes).unwrap().starts_with("uname,hash\n"));
        },
        other => panic!("unexpected step {:?}", other),
    }
    // A failed credential write ends the save; the key store is not written.
    let failure = FileError::Write("u.csv: disk full".to_string());
    match a.save_step(Some((Store::Credentials, Err(FileError::Write("u.csv: disk full".to_string()))))) {
        SaveAction::Finished(r) => assert_eq!(r, Err(failure)),
        other => panic!("unexpected step {:?}", other),
    }
    assert!(a.pwd_dirty() && a.key_dirty());

    // A successful credential write leads to the key store.
    assert!(matches!(a.save_step(None), SaveAction::Write(Store::Credentials, _, _)));
    match a.save_step(Some((Store::Credentials, Ok(())))) {
        SaveAction::Write(Store::Keys, path, bytes) => {
            assert_eq!(path, "k.csv");
            assert!(String::from_utf8(bytes).unwrap().starts_with("key,expiry,uname\n"));
        },
        other => panic!("unexpected step {:?}", other),
    }
    assert!(!a.pwd_dirty() && a.key_dirty());
    // A failed key write is reported, the key store stays dirty.
    match a.save_step(Some((Store::Keys, Err(FileError::Write("k.csv".to_string()))))) {
        SaveAction::Finished(r) => assert_eq!(r, Err(FileError::Write("k.csv".to_string()))),
        other => panic!("unexpected step {:?}", other),
    }
    assert!(a.key_dirty());
    assert!(matches!(a.save_step(None), SaveAction::Write(Store::Keys, _, _)));
    assert!(matches!(a.save_step(Some((Store::Keys, Ok(())))), SaveAction::Finished(Ok(()))));
    assert!(!a.pwd_dirty() && !a.key_dirty());
}

#[test]
fn digest_compare_empty_inputs() {
    let mut a = PwdAuth::blank("p.csv");
    a.add_user("x", "", b"").unwrap();
    assert_eq!(a.check_password("x", "", b""), Ok(()));
    assert_eq!(a.check_password("x", "", b"\0"), Err(DataError::BadPassword));
}

#[test]
fn hex_of_any_length() {
    assert_eq!(to_hex(&vec![0xab; 40]), "ab".repeat(40));
    assert_eq!(to_hex(&vec![0x01, 0xf0]), "01f0");
    assert_eq!(from_hex(&"F0".repeat(32)), Some(vec![0xf0; 32]));
    assert_eq!(from_hex("01f0"), None);
}
