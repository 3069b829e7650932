//! What holds of the key encoding: decoding inverts it, it keeps the order of
//! names, and the range bounds of a database hold the keys of its tables and
//! no others.
//!
//! The grammar defines no escaping. A name that holds the byte on which the
//! next level opens (`*` in a namespace, `!` in a database) therefore reads
//! back as other names, and the statements below leave such names out where
//! they would fail.

use vstd::prelude::*;
use vstd::utf8::{
    decode_utf8_encode_utf8, encode_utf8, encode_utf8_decode_utf8, encode_utf8_valid_utf8,
    valid_utf8,
};
use crate::key::database::Db;
use crate::key::namespace::Ns;
use crate::key::tb::Tb;
use crate::key::order::{in_range, lemma_lex_lt_prepend, lex_lt, lt_at};
use crate::key::{
    database_bytes, database_segments, first_index, free_of, lemma_first_index,
    lemma_first_index_is, namespace_bytes, namespace_segment, root_bytes, table_bytes,
    table_prefix_bytes, table_segments, table_sentinel, table_suffix_bytes, BANG, HIGH, LOW,
    STAR,
};

verus! {

/// The bytes of a namespace key split back into the name they were made of.
pub proof fn lemma_namespace_segment_of_bytes(ns: Seq<u8>)
    ensures
        namespace_segment(namespace_bytes(ns)) == Ok::<Seq<u8>, crate::err::DecodeError>(ns),
{
    assert(namespace_bytes(ns).skip(2) =~= ns);
}

/// The bytes of a database key split back into the names they were made of,
/// provided the namespace holds no `*`.
pub proof fn lemma_database_segments_of_bytes(ns: Seq<u8>, db: Seq<u8>)
    requires
        free_of(ns, STAR),
    ensures
        database_segments(database_bytes(ns, db)) == Ok::<
            (Seq<u8>, Seq<u8>),
            crate::err::DecodeError,
        >((ns, db)),
{
    let v = database_bytes(ns, db);
    let a = v.skip(2);
    let i = ns.len() as int;
    assert(a =~= ns + seq![STAR] + db);
    lemma_first_index_is(a, STAR, i);
    assert(a.take(i) =~= ns);
    assert(a.skip(i + 1) =~= db);
}

/// The bytes of a table key split back into the names they were made of,
/// provided the namespace holds no `*` and the database no `!`.
pub proof fn lemma_table_segments_of_bytes(ns: Seq<u8>, db: Seq<u8>, tb: Seq<u8>)
    requires
        free_of(ns, STAR),
        free_of(db, BANG),
    ensures
        table_segments(table_bytes(ns, db, tb)) == Ok::<
            (Seq<u8>, Seq<u8>, Seq<u8>),
            crate::err::DecodeError,
        >((ns, db, tb)),
{
    let v = table_bytes(ns, db, tb);
    let a = v.skip(2);
    let i = ns.len() as int;
    let rest = db + table_sentinel() + tb;
    assert(a =~= ns + seq![STAR] + rest);
    lemma_first_index_is(a, STAR, i);
    assert(a.take(i) =~= ns);
    let b = a.skip(i + 1);
    assert(b =~= rest);
    let j = db.len() as int;
    lemma_first_index_is(b, BANG, j);
    assert(b.take(j) =~= db);
    let c = b.skip(j + 1);
    assert(c.skip(2) =~= tb);
}

/// Whatever splits as a table key is the encoding of the names it splits
/// into, and those names are free of the bytes that end them.
pub proof fn lemma_table_bytes_of_segments(v: Seq<u8>)
    requires
        table_segments(v) is Ok,
    ensures
        ({
            let (ns, db, tb) = table_segments(v)->Ok_0;
            &&& v == table_bytes(ns, db, tb)
            &&& free_of(ns, STAR)
            &&& free_of(db, BANG)
        }),
{
    let (ns, db, tb) = table_segments(v)->Ok_0;
    let a = v.skip(2);
    lemma_first_index(a, STAR);
    let i = first_index(a, STAR);
    let b = a.skip(i + 1);
    lemma_first_index(b, BANG);
    let j = first_index(b, BANG);
    let c = b.skip(j + 1);
    assert(ns == a.take(i));
    assert(db == b.take(j));
    assert(tb == c.skip(2));
    assert(v =~= table_bytes(ns, db, tb));
}

/// Decoding the encoding of a namespace key gives the key back.
pub proof fn namespace_round_trip(k: Ns)
    ensures
        Ns::parse(k.bytes()) == Ok::<Seq<char>, crate::err::DecodeError>(k@),
{
    let ns = encode_utf8(k.ns@);
    lemma_namespace_segment_of_bytes(ns);
    encode_utf8_valid_utf8(k.ns@);
    encode_utf8_decode_utf8(k.ns@);
}

/// Whatever splits as a database key is the encoding of the names it
/// splits into, and the namespace is free of the byte that ends it.
pub proof fn lemma_database_bytes_of_segments(v: Seq<u8>)
    requires
        database_segments(v) is Ok,
    ensures
        ({
            let (ns, db) = database_segments(v)->Ok_0;
            &&& v == database_bytes(ns, db)
            &&& free_of(ns, STAR)
        }),
{
    let (ns, db) = database_segments(v)->Ok_0;
    let a = v.skip(2);
    lemma_first_index(a, STAR);
    let i = first_index(a, STAR);
    assert(ns == a.take(i));
    assert(db == a.skip(i + 1));
    assert(v =~= database_bytes(ns, db));
}

/// Decoding the encoding of a database key gives the key back exactly if
/// the name of the namespace holds no `*`.
pub proof fn database_round_trip(k: Db)
    ensures
        Db::parse(k.bytes()) == Ok::<(Seq<char>, Seq<char>), crate::err::DecodeError>(k@)
            <==> free_of(encode_utf8(k.ns@), STAR),
{
    encode_utf8_valid_utf8(k.ns@);
    encode_utf8_decode_utf8(k.ns@);
    encode_utf8_valid_utf8(k.db@);
    encode_utf8_decode_utf8(k.db@);
    if free_of(encode_utf8(k.ns@), STAR) {
        lemma_database_segments_of_bytes(encode_utf8(k.ns@), encode_utf8(k.db@));
    }
    if Db::parse(k.bytes()) == Ok::<(Seq<char>, Seq<char>), crate::err::DecodeError>(k@) {
        let (ns, db) = database_segments(k.bytes())->Ok_0;
        lemma_database_bytes_of_segments(k.bytes());
        decode_utf8_encode_utf8(ns);
    }
}

/// Decoding the encoding of a table key gives the key back exactly if the
/// name of the namespace holds no `*` and the name of the database no `!`.
pub proof fn table_round_trip(k: Tb)
    ensures
        Tb::parse(k.bytes()) == Ok::<
            (Seq<char>, Seq<char>, Seq<char>),
            crate::err::DecodeError,
        >(k@) <==> free_of(encode_utf8(k.ns@), STAR) && free_of(encode_utf8(k.db@), BANG),
{
    encode_utf8_valid_utf8(k.ns@);
    encode_utf8_decode_utf8(k.ns@);
    encode_utf8_valid_utf8(k.db@);
    encode_utf8_decode_utf8(k.db@);
    encode_utf8_valid_utf8(k.tb@);
    encode_utf8_decode_utf8(k.tb@);
    if free_of(encode_utf8(k.ns@), STAR) && free_of(encode_utf8(k.db@), BANG) {
        lemma_table_segments_of_bytes(
            encode_utf8(k.ns@),
            encode_utf8(k.db@),
            encode_utf8(k.tb@),
        );
    }
    if Tb::parse(k.bytes()) == Ok::<
        (Seq<char>, Seq<char>, Seq<char>),
        crate::err::DecodeError,
    >(k@) {
        let (ns, db, tb) = table_segments(k.bytes())->Ok_0;
        lemma_table_bytes_of_segments(k.bytes());
        decode_utf8_encode_utf8(ns);
        decode_utf8_encode_utf8(db);
    }
}

/// Whatever decodes as a table key is the encoding of the key it decodes
/// to: no two byte strings decode to one key.
pub proof fn table_decodes_encodings_only(v: Seq<u8>)
    requires
        Tb::parse(v) is Ok,
    ensures
        ({
            let (ns, db, tb) = Tb::parse(v)->Ok_0;
            v == table_bytes(encode_utf8(ns), encode_utf8(db), encode_utf8(tb))
        }),
{
    let (ns, db, tb) = table_segments(v)->Ok_0;
    lemma_table_bytes_of_segments(v);
    decode_utf8_encode_utf8(ns);
    decode_utf8_encode_utf8(db);
    decode_utf8_encode_utf8(tb);
}

/// Namespace keys are ordered as the bytes of their names, the order in
/// which `str` compares.
pub proof fn namespace_order(ns1: Seq<u8>, ns2: Seq<u8>)
    ensures
        lex_lt(namespace_bytes(ns1), namespace_bytes(ns2)) <==> lex_lt(ns1, ns2),
{
    lemma_lex_lt_prepend(root_bytes() + seq![STAR], ns1, ns2);
    assert(namespace_bytes(ns1) =~= root_bytes() + seq![STAR] + ns1);
    assert(namespace_bytes(ns2) =~= root_bytes() + seq![STAR] + ns2);
}

/// The keys of the databases of one namespace are ordered as the bytes of
/// the databases' names.
pub proof fn database_order(ns: Seq<u8>, db1: Seq<u8>, db2: Seq<u8>)
    ensures
        lex_lt(database_bytes(ns, db1), database_bytes(ns, db2)) <==> lex_lt(db1, db2),
{
    lemma_lex_lt_prepend(namespace_bytes(ns) + seq![STAR], db1, db2);
}

/// The keys of the tables of one database are ordered as the bytes of the
/// tables' names.
pub proof fn table_order(ns: Seq<u8>, db: Seq<u8>, tb1: Seq<u8>, tb2: Seq<u8>)
    ensures
        lex_lt(table_bytes(ns, db, tb1), table_bytes(ns, db, tb2)) <==> lex_lt(tb1, tb2),
{
    lemma_lex_lt_prepend(database_bytes(ns, db) + table_sentinel(), tb1, tb2);
}

/// The key of every level is a strict prefix of the keys of the levels
/// below it.
pub proof fn ancestor_is_prefix(ns: Seq<u8>, db: Seq<u8>, tb: Seq<u8>)
    ensures
        root_bytes().is_prefix_of(namespace_bytes(ns)),
        root_bytes().len() < namespace_bytes(ns).len(),
        namespace_bytes(ns).is_prefix_of(database_bytes(ns, db)),
        namespace_bytes(ns).len() < database_bytes(ns, db).len(),
        database_bytes(ns, db).is_prefix_of(table_bytes(ns, db, tb)),
        database_bytes(ns, db).len() < table_bytes(ns, db, tb).len(),
{
    assert(namespace_bytes(ns).subrange(0, 1) =~= root_bytes());
    assert(database_bytes(ns, db).subrange(0, namespace_bytes(ns).len() as int)
        =~= namespace_bytes(ns));
    assert(table_bytes(ns, db, tb).subrange(0, database_bytes(ns, db).len() as int)
        =~= database_bytes(ns, db));
}

/// The bounds of a database hold the key of each of its tables whose name
/// is not empty and does not start with the byte `0xff`.
pub proof fn lemma_table_in_bounds(ns: Seq<u8>, db: Seq<u8>, tb: Seq<u8>)
    requires
        tb.len() > 0,
        tb[0] != HIGH,
    ensures
        in_range(table_bytes(ns, db, tb), table_prefix_bytes(ns, db), table_suffix_bytes(ns, db)),
{
    let p = database_bytes(ns, db) + table_sentinel();
    let low = seq![LOW];
    let high = seq![HIGH];
    assert(lt_at(tb, high, 0));
    lemma_lex_lt_prepend(p, tb, high);
    if tb[0] == LOW {
        if tb.len() == 1 {
            assert(tb =~= low);
        } else {
            assert(lt_at(low, tb, 1));
        }
    } else {
        assert(lt_at(low, tb, 0));
    }
    lemma_lex_lt_prepend(p, low, tb);
}

/// Text that is not empty has an encoding that is not empty and does not
/// start with the byte `0xff`.
pub proof fn lemma_text_starts_below_high(t: Seq<char>)
    requires
        t.len() > 0,
    ensures
        encode_utf8(t).len() > 0,
        encode_utf8(t)[0] != HIGH,
{
    let bytes = encode_utf8(t);
    encode_utf8_valid_utf8(t);
    vstd::utf8::encode_utf8_first_scalar(t);
    assert(valid_utf8(bytes));
}

/// The bounds of a database hold the key of each of its tables whose name
/// is not empty.
pub proof fn table_containment(k: Tb)
    requires
        k.tb@.len() > 0,
    ensures
        in_range(
            k.bytes(),
            table_prefix_bytes(encode_utf8(k.ns@), encode_utf8(k.db@)),
            table_suffix_bytes(encode_utf8(k.ns@), encode_utf8(k.db@)),
        ),
{
    lemma_text_starts_below_high(k.tb@);
    lemma_table_in_bounds(encode_utf8(k.ns@), encode_utf8(k.db@), encode_utf8(k.tb@));
}

/// Every byte string between `p` followed by `0x00`, inclusive, and `p`
/// followed by `0xff`, exclusive, starts with `p`.
pub proof fn lemma_range_shares_start(p: Seq<u8>, k: Seq<u8>)
    requires
        in_range(k, p + seq![LOW], p + seq![HIGH]),
    ensures
        p.len() <= k.len(),
        forall|j: int| 0 <= j < p.len() ==> k[j] == p[j],
{
    let m = p.len() as int;
    let lo = p + seq![LOW];
    let hi = p + seq![HIGH];
    let n = choose|n: int| lt_at(k, hi, n);
    if n < m {
        assert(hi[n] == p[n]);
        assert(lo[n] == p[n]);
        if lo == k {
        } else {
            let q = choose|q: int| lt_at(lo, k, q);
            if q < n {
                assert(lo[q] == p[q]);
                assert(hi[q] == p[q]);
                assert(k[q] == hi[q]);
            } else if q == n {
            } else {
                assert(lo[n] == k[n]);
            }
        }
        assert(false);
    }
    assert forall|j: int| 0 <= j < m implies k[j] == p[j] by {
        assert(k[j] == hi[j]);
    }
}

/// A table key that lies within the bounds of a database belongs to that
/// database, provided the namespaces hold no `*` and the databases no `!`.
pub proof fn lemma_bounds_hold_own_tables(
    ns1: Seq<u8>,
    db1: Seq<u8>,
    ns2: Seq<u8>,
    db2: Seq<u8>,
    tb: Seq<u8>,
)
    requires
        free_of(ns1, STAR),
        free_of(ns2, STAR),
        free_of(db1, BANG),
        free_of(db2, BANG),
        in_range(
            table_bytes(ns2, db2, tb),
            table_prefix_bytes(ns1, db1),
            table_suffix_bytes(ns1, db1),
        ),
    ensures
        ns1 == ns2,
        db1 == db2,
{
    let p = database_bytes(ns1, db1) + table_sentinel();
    let k = table_bytes(ns2, db2, tb);
    lemma_range_shares_start(p, k);
    let n1 = ns1.len() as int;
    let n2 = ns2.len() as int;
    let d1 = db1.len() as int;
    let d2 = db2.len() as int;
    assert(p.len() == 6 + n1 + d1);
    assert(k.len() == 6 + n2 + d2 + tb.len());
    assert forall|j: int| 0 <= j < n1 implies p[2 + j] == ns1[j] by {}
    assert forall|j: int| 0 <= j < n2 implies k[2 + j] == ns2[j] by {}
    assert(p[2 + n1] == STAR);
    assert(k[2 + n2] == STAR);
    if n1 < n2 {
        assert(k[2 + n1] == p[2 + n1]);
        assert(ns2[n1] == STAR);
    }
    if n2 < n1 {
        assert(k[2 + n2] == p[2 + n2]);
        assert(ns1[n2] == STAR);
    }
    assert(n1 == n2);
    assert forall|j: int| 0 <= j < n1 implies ns1[j] == ns2[j] by {
        assert(k[2 + j] == p[2 + j]);
    }
    assert(ns1 =~= ns2);
    assert forall|j: int| 0 <= j < d1 implies p[3 + n1 + j] == db1[j] by {}
    assert forall|j: int| 0 <= j < d2 implies k[3 + n1 + j] == db2[j] by {}
    assert(p[3 + n1 + d1] == BANG);
    assert(k[3 + n1 + d2] == BANG);
    if d1 < d2 {
        assert(k[3 + n1 + d1] == p[3 + n1 + d1]);
        assert(db2[d1] == BANG);
    }
    if d2 < d1 {
        assert(k[3 + n1 + d2] == p[3 + n1 + d2]);
        assert(db1[d2] == BANG);
    }
    assert(d1 == d2);
    assert forall|j: int| 0 <= j < d1 implies db1[j] == db2[j] by {
        assert(k[3 + n1 + j] == p[3 + n1 + j]);
    }
    assert(db1 =~= db2);
}

/// The bounds of one database hold no key of a table of another, provided
/// the namespaces hold no `*` and the databases no `!`.
pub proof fn table_exclusivity(ns: Seq<char>, db: Seq<char>, k: Tb)
    requires
        (ns, db) != (k.ns@, k.db@),
        free_of(encode_utf8(ns), STAR),
        free_of(encode_utf8(k.ns@), STAR),
        free_of(encode_utf8(db), BANG),
        free_of(encode_utf8(k.db@), BANG),
    ensures
        !in_range(
            k.bytes(),
            table_prefix_bytes(encode_utf8(ns), encode_utf8(db)),
            table_suffix_bytes(encode_utf8(ns), encode_utf8(db)),
        ),
{
    if in_range(
        k.bytes(),
        table_prefix_bytes(encode_utf8(ns), encode_utf8(db)),
        table_suffix_bytes(encode_utf8(ns), encode_utf8(db)),
    ) {
        lemma_bounds_hold_own_tables(
            encode_utf8(ns),
            encode_utf8(db),
            encode_utf8(k.ns@),
            encode_utf8(k.db@),
            encode_utf8(k.tb@),
        );
        encode_utf8_decode_utf8(ns);
        encode_utf8_decode_utf8(k.ns@);
        encode_utf8_decode_utf8(db);
        encode_utf8_decode_utf8(k.db@);
    }
}

} // verus!
