use storage_core::err::DecodeError;
use storage_core::key::database::Db;
use storage_core::key::namespace::Ns;
use storage_core::key::root::Root;
use storage_core::key::tb::Tb;
use storage_core::key::order::bytes_lt;
use storage_core::key::{database, namespace, root, tb};

#[test]
fn key() {
    let val = Tb::new("test", "test", "test");
    let enc = Tb::encode(&val);
    let dec = Tb::decode(&enc).unwrap();
    assert_eq!(val, dec);
}

#[test]
fn table_key_has_the_canonical_bytes() {
    let enc = tb::new("test", "test", "test").encode();
    assert_eq!(enc, b"/*test*test!tbtest".to_vec());
    assert_eq!(
        enc,
        vec![
            0x2f, 0x2a, 0x74, 0x65, 0x73, 0x74, 0x2a, 0x74, 0x65, 0x73, 0x74, 0x21, 0x74, 0x62,
            0x74, 0x65, 0x73, 0x74,
        ]
    );
}

#[test]
fn root_namespace_and_database_keys_have_the_canonical_bytes() {
    assert_eq!(root::new().encode(), vec![0x2f]);
    assert_eq!(namespace::new("ns").encode(), b"/*ns".to_vec());
    assert_eq!(database::new("ns", "db").encode(), b"/*ns*db".to_vec());
    assert_eq!(Ns::new("").encode(), b"/*".to_vec());
}

#[test]
fn prefix_and_suffix_have_the_canonical_bytes() {
    assert_eq!(tb::prefix("ns1", "db1"), b"/*ns1*db1!tb\x00".to_vec());
    assert_eq!(tb::suffix("ns1", "db1"), b"/*ns1*db1!tb\xff".to_vec());
}

#[test]
fn bounds_bracket_the_tables_of_their_database_only() {
    let lo = tb::prefix("ns1", "db1");
    let hi = tb::suffix("ns1", "db1");
    let own = Tb::new("ns1", "db1", "users").encode();
    assert!(lo <= own && own < hi);
    assert!(!bytes_lt(&own, &lo) && bytes_lt(&own, &hi));
    let other = Tb::new("ns2", "db1", "users").encode();
    assert!(!(lo <= other && other < hi));
    assert!(!bytes_lt(&other, &hi));
    let other = Tb::new("ns1", "db2", "users").encode();
    assert!(!(lo <= other && other < hi));
    let other = Tb::new("ns0", "db1", "users").encode();
    assert!(bytes_lt(&other, &lo));
}

#[test]
fn empty_table_name_falls_below_the_bounds() {
    let lo = tb::prefix("ns", "db");
    let key = Tb::new("ns", "db", "").encode();
    assert!(bytes_lt(&key, &lo));
}

#[test]
fn unescaped_sentinel_in_a_name_breaks_out_of_its_database() {
    let lo = tb::prefix("a", "b");
    let hi = tb::suffix("a", "b");
    let key = Tb::new("a", "b!tbzzz", "q").encode();
    assert!(lo <= key && key < hi);
}

#[test]
fn namespace_keys_are_ordered_as_their_names() {
    let names = ["", "a", "ab", "abc", "b", "ba", "é", "日本"];
    for x in names {
        for y in names {
            let kx = Ns::new(x).encode();
            let ky = Ns::new(y).encode();
            assert_eq!(x < y, bytes_lt(&kx, &ky));
            assert_eq!(x < y, kx < ky);
        }
    }
}

#[test]
fn bytes_lt_is_the_byte_wise_order() {
    assert!(bytes_lt(b"", b"a"));
    assert!(!bytes_lt(b"", b""));
    assert!(!bytes_lt(b"a", b""));
    assert!(bytes_lt(b"a", b"ab"));
    assert!(!bytes_lt(b"ab", b"a"));
    assert!(bytes_lt(b"ab", b"b"));
    assert!(bytes_lt(b"a\x00", b"a\xff"));
    assert!(!bytes_lt(b"abc", b"abc"));
}

#[test]
fn every_level_reads_back_what_it_wrote() {
    assert_eq!(Root::decode(&Root::new().encode()), Ok(Root::new()));
    let ns = Ns::new("surreal");
    assert_eq!(Ns::decode(&ns.encode()), Ok(ns));
    let db = Db::new("surreal", "main");
    assert_eq!(Db::decode(&db.encode()), Ok(db));
    let tb = Tb::new("surreal", "main", "person");
    assert_eq!(Tb::decode(&tb.encode()), Ok(tb));
}

#[test]
fn text_beyond_ascii_reads_back() {
    let val = Tb::new("名前空間", "données", "tábla✓");
    let enc = val.encode();
    assert_eq!(enc.len(), 2 + 12 + 1 + 8 + 3 + 9);
    let dec = Tb::decode(&enc).unwrap();
    assert_eq!(dec.ns, "名前空間");
    assert_eq!(dec.db, "données");
    assert_eq!(dec.tb, "tábla✓");
}

#[test]
fn table_name_may_hold_any_text() {
    let val = Tb::new("ns", "db", "a*b!tb/c");
    assert_eq!(Tb::decode(&val.encode()), Ok(val));
    let val = Tb::new("", "", "");
    assert_eq!(val.encode(), b"/**!tb".to_vec());
    assert_eq!(Tb::decode(&val.encode()), Ok(val));
}

#[test]
fn names_with_the_next_sentinel_read_back_as_other_names() {
    let enc = Db::new("a*b", "c").encode();
    assert_eq!(Db::decode(&enc), Ok(Db::new("a", "b*c")));
    let enc = Tb::new("ns", "d!tbx", "y").encode();
    assert_eq!(Tb::decode(&enc), Ok(Tb::new("ns", "d", "x!tby")));
    let enc = Tb::new("ns", "d!x", "y").encode();
    assert_eq!(Tb::decode(&enc), Err(DecodeError::Sentinel));
}

#[test]
fn decode_reports_a_wrong_sentinel() {
    assert_eq!(Root::decode(b""), Err(DecodeError::Sentinel));
    assert_eq!(Root::decode(b"*"), Err(DecodeError::Sentinel));
    assert_eq!(Root::decode(b"//"), Err(DecodeError::Sentinel));
    assert_eq!(Ns::decode(b""), Err(DecodeError::Sentinel));
    assert_eq!(Ns::decode(b"/"), Err(DecodeError::Sentinel));
    assert_eq!(Ns::decode(b"/!ns"), Err(DecodeError::Sentinel));
    assert_eq!(Db::decode(b"*/ns*db"), Err(DecodeError::Sentinel));
    assert_eq!(Tb::decode(b"/ns*db!tbtb"), Err(DecodeError::Sentinel));
    assert_eq!(Tb::decode(b"/*ns*db!"), Err(DecodeError::Sentinel));
    assert_eq!(Tb::decode(b"/*ns*db!t"), Err(DecodeError::Sentinel));
    assert_eq!(Tb::decode(b"/*ns*db!tx"), Err(DecodeError::Sentinel));
    assert_eq!(Tb::decode(b"/*ns*db!xbtb"), Err(DecodeError::Sentinel));
}

#[test]
fn decode_reports_a_missing_boundary() {
    assert_eq!(Db::decode(b"/*ns"), Err(DecodeError::Boundary));
    assert_eq!(Db::decode(b"/*"), Err(DecodeError::Boundary));
    assert_eq!(Tb::decode(b"/*ns"), Err(DecodeError::Boundary));
    assert_eq!(Tb::decode(b"/*ns*db"), Err(DecodeError::Boundary));
    assert_eq!(Tb::decode(b"/*ns*dbtbtb"), Err(DecodeError::Boundary));
}

#[test]
fn decode_reports_text_that_is_not_utf8() {
    assert_eq!(Ns::decode(b"/*\xff"), Err(DecodeError::Text));
    assert_eq!(Ns::decode(b"/*a\xc3"), Err(DecodeError::Text));
    assert_eq!(Db::decode(b"/*\x80*db"), Err(DecodeError::Text));
    assert_eq!(Db::decode(b"/*ns*\xc0\xaf"), Err(DecodeError::Text));
    assert_eq!(Tb::decode(b"/*\xed\xa0\x80*db!tbtb"), Err(DecodeError::Text));
    assert_eq!(Tb::decode(b"/*ns*d\xfeb!tbtb"), Err(DecodeError::Text));
    assert_eq!(Tb::decode(b"/*ns*db!tb\xe2\x9c"), Err(DecodeError::Text));
}

#[test]
fn structure_is_checked_before_text() {
    assert_eq!(Tb::decode(b"/*\xff*db"), Err(DecodeError::Boundary));
    assert_eq!(Tb::decode(b"/*\xff*db!xx"), Err(DecodeError::Sentinel));
}

#[test]
fn decoded_key_borrows_from_the_bytes() {
    let enc = b"/*n*d!tbt".to_vec();
    let dec = Tb::decode(&enc).unwrap();
    assert_eq!((dec.ns, dec.db, dec.tb), ("n", "d", "t"));
    assert_eq!(dec.encode(), enc);
}

#[test]
fn ancestors_are_strict_prefixes() {
    let r = Root::new().encode();
    let n = Ns::new("ns").encode();
    let d = Db::new("ns", "db").encode();
    let t = Tb::new("ns", "db", "tb").encode();
    assert!(n.starts_with(&r) && n.len() > r.len());
    assert!(d.starts_with(&n) && d.len() > n.len());
    assert!(t.starts_with(&d) && t.len() > d.len());
}
