//! The byte layout in which a vault's entries are stored: a little-endian
//! 64-bit entry count, then for each entry in name order its name and its
//! sealed value, each as a little-endian 64-bit length followed by the bytes.
//! (This is the layout bincode gives the same data with its default options.)

use vstd::prelude::*;
use vstd::utf8::{decode_utf8, encode_utf8, encode_utf8_decode_utf8, encode_utf8_valid_utf8, valid_utf8};

use crate::db_base::Database;
use crate::encryption::EncryptionResult;

verus! {

/// 256 to the power `n`.
pub open spec fn pow256(n: nat) -> nat
    decreases n,
{
    if n == 0 {
        1
    } else {
        256 * pow256((n - 1) as nat)
    }
}

/// The `n` little-endian bytes of `x` (the low `8 * n` bits).
pub open spec fn le_bytes(x: nat, n: nat) -> Seq<u8>
    decreases n,
{
    if n == 0 {
        Seq::empty()
    } else {
        seq![(x % 256) as u8] + le_bytes(x / 256, (n - 1) as nat)
    }
}

/// The number that little-endian bytes stand for.
pub open spec fn le_value(b: Seq<u8>) -> nat
    decreases b.len(),
{
    if b.len() == 0 {
        0
    } else {
        (b[0] + 256 * le_value(b.drop_first())) as nat
    }
}

/// The 8 little-endian bytes of a 64-bit count or length.
pub open spec fn u64_le(x: u64) -> Seq<u8> {
    le_bytes(x as nat, 8)
}

pub proof fn lemma_le_bytes_len(x: nat, n: nat)
    ensures
        le_bytes(x, n).len() == n,
    decreases n,
{
    if n > 0 {
        lemma_le_bytes_len(x / 256, (n - 1) as nat);
    }
}

/// Reading back little-endian bytes gives the number, when it fits.
pub proof fn lemma_le_roundtrip(x: nat, n: nat)
    requires
        x < pow256(n),
    ensures
        le_value(le_bytes(x, n)) == x,
    decreases n,
{
    if n > 0 {
        let p = pow256((n - 1) as nat);
        assert(x / 256 < p) by (nonlinear_arith)
            requires
                x < 256 * p,
        ;
        lemma_le_roundtrip(x / 256, (n - 1) as nat);
        lemma_le_bytes_len(x / 256, (n - 1) as nat);
        let b = le_bytes(x, n);
        assert(b.drop_first() =~= le_bytes(x / 256, (n - 1) as nat));
        assert(x == (x % 256) + 256 * (x / 256)) by (nonlinear_arith);
    }
}

/// Little-endian bytes stand for less than 256 to the number of bytes.
pub proof fn lemma_le_value_bound(b: Seq<u8>)
    ensures
        le_value(b) < pow256(b.len()),
    decreases b.len(),
{
    if b.len() > 0 {
        lemma_le_value_bound(b.drop_first());
        let v = le_value(b.drop_first());
        let p = pow256(b.drop_first().len());
        let h = b[0] as nat;
        assert(h + 256 * v < 256 * p) by (nonlinear_arith)
            requires
                v < p,
                h < 256,
        ;
    }
}

pub proof fn lemma_pow256_8()
    ensures
        pow256(8) == 0x1_0000_0000_0000_0000,
{
    reveal_with_fuel(pow256, 9);
}

/// Appends the 8 little-endian bytes of `x`.
pub fn push_u64_le(out: &mut Vec<u8>, x: u64)
    ensures
        final(out)@ == old(out)@ + u64_le(x),
{
    let ghost start = out@;
    let mut rest: u64 = x;
    let mut i: usize = 0;
    proof {
        lemma_le_bytes_len(x as nat, 8);
    }
    while i < 8
        invariant
            i <= 8,
            start + le_bytes(x as nat, 8) == out@ + le_bytes(rest as nat, (8 - i) as nat),
        decreases 8 - i,
    {
        let ghost before = out@;
        out.push((rest % 256) as u8);
        proof {
            let tail = le_bytes(rest as nat, (8 - i) as nat);
            assert(tail =~= seq![(rest % 256) as u8] + le_bytes((rest / 256) as nat, (8 - i - 1) as nat));
            assert(before + tail =~= out@ + le_bytes((rest / 256) as nat, (8 - i - 1) as nat));
        }
        rest = rest / 256;
        i = i + 1;
    }
    assert(le_bytes(rest as nat, 0) =~= Seq::<u8>::empty());
    assert(out@ =~= start + u64_le(x));
}

/// Reads the 8 little-endian bytes at `pos`.
pub fn read_u64_le(data: &[u8], pos: usize) -> (x: u64)
    requires
        pos + 8 <= data@.len(),
    ensures
        x as nat == le_value(data@.subrange(pos as int, pos + 8)),
{
    let n = data.len();
    let mut v: u64 = 0;
    let mut i: usize = 8;
    proof {
        lemma_pow256_8();
    }
    assert(data@.subrange(pos + 8, pos + 8).len() == 0);
    while i > 0
        invariant
            i <= 8,
            pos + 8 <= data@.len(),
            n == data@.len(),
            v as nat == le_value(data@.subrange(pos + i, pos + 8)),
            pow256(8) == 0x1_0000_0000_0000_0000,
        decreases i,
    {
        let ghost tail = data@.subrange(pos + i, pos + 8);
        let b = data[pos + i - 1];
        proof {
            lemma_le_value_bound(tail);
            let s = data@.subrange(pos + i - 1, pos + 8);
            assert(s.drop_first() =~= tail);
            assert(s[0] == b);
            assert(pow256(tail.len()) <= pow256(7)) by {
                reveal_with_fuel(pow256, 9);
            }
            assert(pow256(7) == 0x100_0000_0000_0000) by {
                reveal_with_fuel(pow256, 8);
            }
            assert(b + 256 * v < 0x1_0000_0000_0000_0000) by (nonlinear_arith)
                requires
                    v < 0x100_0000_0000_0000,
                    b < 256,
            ;
        }
        v = (b as u64) + 256 * v;
        i = i - 1;
    }
    v
}

/// A length-prefixed field.
pub open spec fn encode_field(b: Seq<u8>) -> Seq<u8> {
    u64_le(b.len() as u64) + b
}

/// One entry: its name's UTF-8 bytes, then its sealed value, each as a field.
pub open spec fn encode_entry(name: Seq<char>, value: Seq<u8>) -> Seq<u8> {
    encode_field(encode_utf8(name)) + encode_field(value)
}

/// The entries named by `keys`, in that order.
pub open spec fn encode_entries(keys: Seq<Seq<char>>, m: Map<Seq<char>, Seq<u8>>) -> Seq<u8>
    decreases keys.len(),
{
    if keys.len() == 0 {
        Seq::empty()
    } else {
        encode_entry(keys[0], m[keys[0]]) + encode_entries(keys.drop_first(), m)
    }
}

/// A whole database: the entry count, then the entries in name order.
pub open spec fn encode_database(keys: Seq<Seq<char>>, m: Map<Seq<char>, Seq<u8>>) -> Seq<u8> {
    u64_le(keys.len() as u64) + encode_entries(keys, m)
}

/// The sealed bytes stored under each name.
pub open spec fn sealed_values(m: Map<Seq<char>, EncryptionResult>) -> Map<Seq<char>, Seq<u8>> {
    m.map_values(|e: EncryptionResult| e@)
}

/// Reads a length-prefixed field from the front of `data`: the field and the rest.
pub open spec fn parse_field(data: Seq<u8>) -> Option<(Seq<u8>, Seq<u8>)> {
    if data.len() < 8 {
        None
    } else {
        let l = le_value(data.take(8));
        let rest = data.skip(8);
        if l > rest.len() {
            None
        } else {
            Some((rest.take(l as int), rest.skip(l as int)))
        }
    }
}

/// Reads one entry from the front of `data`: name, value and the rest. A
/// name that is not UTF-8 is refused.
pub open spec fn parse_entry(data: Seq<u8>) -> Option<(Seq<char>, Seq<u8>, Seq<u8>)> {
    match parse_field(data) {
        None => None,
        Some((name_bytes, r1)) => if !valid_utf8(name_bytes) {
            None
        } else {
            match parse_field(r1) {
                None => None,
                Some((value, r2)) => Some((decode_utf8(name_bytes), value, r2)),
            }
        },
    }
}

/// Reads `n` entries from the front of `data` into `acc`, a later entry of
/// the same name replacing an earlier one.
pub open spec fn parse_entries(data: Seq<u8>, n: nat, acc: Map<Seq<char>, Seq<u8>>) -> Option<Map<Seq<char>, Seq<u8>>>
    decreases n,
{
    if n == 0 {
        Some(acc)
    } else {
        match parse_entry(data) {
            None => None,
            Some((k, v, rest)) => parse_entries(rest, (n - 1) as nat, acc.insert(k, v)),
        }
    }
}

/// What a stored database reads as; bytes after the last entry are ignored.
pub open spec fn parse_database(data: Seq<u8>) -> Option<Map<Seq<char>, Seq<u8>>> {
    if data.len() < 8 {
        None
    } else {
        parse_entries(data.skip(8), le_value(data.take(8)), Map::empty())
    }
}

/// `acc` with each name of `keys`, in order, set to its value in `m`.
pub open spec fn insert_all(acc: Map<Seq<char>, Seq<u8>>, keys: Seq<Seq<char>>, m: Map<Seq<char>, Seq<u8>>) -> Map<Seq<char>, Seq<u8>>
    decreases keys.len(),
{
    if keys.len() == 0 {
        acc
    } else {
        insert_all(acc.insert(keys[0], m[keys[0]]), keys.drop_first(), m)
    }
}

proof fn lemma_u64_le(x: u64)
    ensures
        u64_le(x).len() == 8,
        le_value(u64_le(x)) == x,
{
    lemma_le_bytes_len(x as nat, 8);
    lemma_pow256_8();
    lemma_le_roundtrip(x as nat, 8);
}

proof fn lemma_parse_field(b: Seq<u8>, rest: Seq<u8>)
    requires
        b.len() <= u64::MAX,
    ensures
        parse_field(encode_field(b) + rest) == Some((b, rest)),
{
    lemma_u64_le(b.len() as u64);
    let d = encode_field(b) + rest;
    assert(d.take(8) =~= u64_le(b.len() as u64));
    assert(d.skip(8) =~= b + rest);
    assert((b + rest).take(b.len() as int) =~= b);
    assert((b + rest).skip(b.len() as int) =~= rest);
}

proof fn lemma_parse_entry(name: Seq<char>, value: Seq<u8>, rest: Seq<u8>)
    requires
        encode_utf8(name).len() <= u64::MAX,
        value.len() <= u64::MAX,
    ensures
        parse_entry(encode_entry(name, value) + rest) == Some((name, value, rest)),
{
    let nb = encode_utf8(name);
    assert(encode_entry(name, value) + rest =~= encode_field(nb) + (encode_field(value) + rest));
    lemma_parse_field(nb, encode_field(value) + rest);
    lemma_parse_field(value, rest);
    encode_utf8_valid_utf8(name);
    encode_utf8_decode_utf8(name);
}

/// Reading encoded entries back gives their names and values, in order.
proof fn lemma_parse_entries(keys: Seq<Seq<char>>, m: Map<Seq<char>, Seq<u8>>, rest: Seq<u8>, acc: Map<Seq<char>, Seq<u8>>)
    requires
        forall|i: int| 0 <= i < keys.len() ==> encode_utf8(#[trigger] keys[i]).len() <= u64::MAX,
        forall|i: int| 0 <= i < keys.len() ==> (#[trigger] m[keys[i]]).len() <= u64::MAX,
    ensures
        parse_entries(encode_entries(keys, m) + rest, keys.len(), acc) == Some(insert_all(acc, keys, m)),
    decreases keys.len(),
{
    if keys.len() > 0 {
        let k = keys[0];
        let tail = encode_entries(keys.drop_first(), m) + rest;
        assert(encode_entries(keys, m) + rest =~= encode_entry(k, m[k]) + tail);
        lemma_parse_entry(k, m[k], tail);
        assert forall|i: int| 0 <= i < keys.drop_first().len() implies encode_utf8(
            #[trigger] keys.drop_first()[i],
        ).len() <= u64::MAX by {
            assert(keys.drop_first()[i] == keys[i + 1]);
        }
        assert forall|i: int| 0 <= i < keys.drop_first().len() implies (#[trigger] m[keys.drop_first()[i]]).len()
            <= u64::MAX by {
            assert(keys.drop_first()[i] == keys[i + 1]);
        }
        lemma_parse_entries(keys.drop_first(), m, rest, acc.insert(k, m[k]));
    }
}

/// Setting every listed name gives, on each name, its value in `m` if it is
/// listed and its value in `acc` otherwise.
proof fn lemma_insert_all(acc: Map<Seq<char>, Seq<u8>>, keys: Seq<Seq<char>>, m: Map<Seq<char>, Seq<u8>>)
    ensures
        forall|k: Seq<char>| #[trigger] insert_all(acc, keys, m).contains_key(k) <==> (acc.contains_key(k)
            || keys.contains(k)),
        forall|k: Seq<char>| keys.contains(k) ==> #[trigger] insert_all(acc, keys, m)[k] == m[k],
        forall|k: Seq<char>| !keys.contains(k) && acc.contains_key(k) ==> #[trigger] insert_all(acc, keys, m)[k]
            == acc[k],
    decreases keys.len(),
{
    if keys.len() > 0 {
        let k0 = keys[0];
        let rest = keys.drop_first();
        let acc2 = acc.insert(k0, m[k0]);
        lemma_insert_all(acc2, rest, m);
        let r = insert_all(acc, keys, m);
        assert(r == insert_all(acc2, rest, m));
        assert forall|k: Seq<char>| keys.contains(k) <==> (k == k0 || rest.contains(k)) by {
            if keys.contains(k) {
                let i = choose|i: int| 0 <= i < keys.len() && keys[i] == k;
                if i > 0 {
                    assert(rest[i - 1] == k);
                }
            }
            if rest.contains(k) {
                let i = choose|i: int| 0 <= i < rest.len() && rest[i] == k;
                assert(keys[i + 1] == k);
            }
            if k == k0 {
                assert(keys[0] == k);
            }
        }
        assert forall|k: Seq<char>| #[trigger] r.contains_key(k) <==> (acc.contains_key(k) || keys.contains(k)) by {
            assert(keys.contains(k) <==> (k == k0 || rest.contains(k)));
        }
        assert forall|k: Seq<char>| keys.contains(k) implies #[trigger] r[k] == m[k] by {
            assert(keys.contains(k) <==> (k == k0 || rest.contains(k)));
        }
        assert forall|k: Seq<char>| !keys.contains(k) && acc.contains_key(k) implies #[trigger] r[k] == acc[k] by {
            assert(keys.contains(k) <==> (k == k0 || rest.contains(k)));
        }
    }
}

/// Stored entries read back as the database they were written from.
pub proof fn lemma_database_roundtrip(keys: Seq<Seq<char>>, m: Map<Seq<char>, Seq<u8>>)
    requires
        keys.len() <= u64::MAX,
        forall|i: int| 0 <= i < keys.len() ==> encode_utf8(#[trigger] keys[i]).len() <= u64::MAX,
        forall|i: int| 0 <= i < keys.len() ==> (#[trigger] m[keys[i]]).len() <= u64::MAX,
        forall|k: Seq<char>| m.contains_key(k) <==> keys.contains(k),
    ensures
        parse_database(encode_database(keys, m)) == Some(m),
{
    let d = encode_database(keys, m);
    lemma_u64_le(keys.len() as u64);
    assert(d.take(8) =~= u64_le(keys.len() as u64));
    assert(d.skip(8) =~= encode_entries(keys, m) + Seq::<u8>::empty());
    lemma_parse_entries(keys, m, Seq::empty(), Map::empty());
    lemma_insert_all(Map::empty(), keys, m);
    assert(insert_all(Map::empty(), keys, m) =~= m);
}

proof fn lemma_encode_entries_push(keys: Seq<Seq<char>>, m: Map<Seq<char>, Seq<u8>>, k: Seq<char>)
    ensures
        encode_entries(keys.push(k), m) == encode_entries(keys, m) + encode_entry(k, m[k]),
    decreases keys.len(),
{
    if keys.len() > 0 {
        lemma_encode_entries_push(keys.drop_first(), m, k);
        assert(keys.push(k).drop_first() =~= keys.drop_first().push(k));
        assert(keys.push(k)[0] == keys[0]);
        assert(encode_entries(keys.push(k), m) =~= encode_entries(keys, m) + encode_entry(k, m[k]));
    } else {
        assert(keys.push(k).drop_first() =~= Seq::<Seq<char>>::empty());
        assert(keys.push(k)[0] == k);
        assert(encode_entries(keys.push(k).drop_first(), m) == Seq::<u8>::empty());
        assert(encode_entries(keys, m) == Seq::<u8>::empty());
        assert(encode_entries(keys.push(k), m) =~= encode_entries(keys, m) + encode_entry(k, m[k]));
    }
}

/// Writes the database in the stored layout.
pub fn serialize_database(db: &Database<EncryptionResult>) -> (out: Vec<u8>)
    requires
        db.wf(),
    ensures
        out@ == encode_database(db.keys(), sealed_values(db@)),
{
    let n = db.len();
    let ghost keys = db.keys();
    let ghost m = sealed_values(db@);
    let mut out: Vec<u8> = Vec::new();
    push_u64_le(&mut out, n as u64);
    let mut i: usize = 0;
    assert(keys.take(0) =~= Seq::<Seq<char>>::empty());
    while i < n
        invariant
            db.wf(),
            n == keys.len(),
            keys == db.keys(),
            m == sealed_values(db@),
            i <= n,
            out@ == u64_le(n as u64) + encode_entries(keys.take(i as int), m),
        decreases n - i,
    {
        let (name, value) = db.entry_at(i);
        let name_bytes = name.as_str().as_bytes();
        let value_bytes = value.as_slice();
        let ghost before = out@;
        push_u64_le(&mut out, name_bytes.len() as u64);
        out.extend_from_slice(name_bytes);
        push_u64_le(&mut out, value_bytes.len() as u64);
        out.extend_from_slice(value_bytes);
        proof {
            let k = keys[i as int];
            assert(m[k] == value@);
            assert(keys.take(i + 1) =~= keys.take(i as int).push(k));
            lemma_encode_entries_push(keys.take(i as int), m, k);
            assert(out@ =~= before + encode_entry(k, m[k]));
        }
        i = i + 1;
    }
    assert(keys.take(n as int) =~= keys);
    out
}

/// `String::from_utf8`: a string when the bytes are UTF-8, holding the
/// characters they encode; otherwise nothing.
#[verifier::external_body]
fn string_from_utf8(bytes: Vec<u8>) -> (s: Option<String>)
    ensures
        s is Some <==> valid_utf8(bytes@),
        s matches Some(t) ==> t@ == decode_utf8(bytes@),
{
    String::from_utf8(bytes).ok()
}

/// Locates the length-prefixed field that starts at `pos`.
fn read_field(data: &[u8], pos: usize) -> (r: Option<(usize, usize)>)
    requires
        pos <= data@.len(),
    ensures
        parse_field(data@.skip(pos as int)) is None ==> r is None,
        parse_field(data@.skip(pos as int)) matches Some((f, rest)) ==> (r matches Some((s, e)) && s <= e
            <= data@.len() && data@.subrange(s as int, e as int) == f && data@.skip(e as int) == rest),
{
    let n = data.len();
    let ghost d = data@.skip(pos as int);
    if n - pos < 8 {
        return None;
    }
    let l = read_u64_le(data, pos);
    assert(d.take(8) =~= data@.subrange(pos as int, pos + 8));
    let avail = n - pos - 8;
    if l > avail as u64 {
        return None;
    }
    let start = pos + 8;
    let end = start + l as usize;
    assert(d.skip(8) =~= data@.skip(start as int));
    assert(data@.skip(start as int).take(l as int) =~= data@.subrange(start as int, end as int));
    assert(data@.skip(start as int).skip(l as int) =~= data@.skip(end as int));
    Some((start, end))
}

/// Reads the entry that starts at `pos`: its name, its value, and where the
/// next entry starts.
fn read_entry(data: &[u8], pos: usize) -> (r: Option<(String, Vec<u8>, usize)>)
    requires
        pos <= data@.len(),
    ensures
        parse_entry(data@.skip(pos as int)) is None ==> r is None,
        parse_entry(data@.skip(pos as int)) matches Some((k, v, rest)) ==> (r matches Some((s, b, e)) && s@
            == k && b@ == v && e <= data@.len() && data@.skip(e as int) == rest),
{
    let (s1, e1) = match read_field(data, pos) {
        Some(f) => f,
        None => return None,
    };
    let name_bytes = vstd::slice::slice_to_vec(vstd::slice::slice_subrange(data, s1, e1));
    let name = match string_from_utf8(name_bytes) {
        Some(name) => name,
        None => return None,
    };
    let (s2, e2) = match read_field(data, e1) {
        Some(f) => f,
        None => return None,
    };
    let value = vstd::slice::slice_to_vec(vstd::slice::slice_subrange(data, s2, e2));
    Some((name, value, e2))
}

/// Reads a stored database. Refuses bytes that do not hold the announced
/// number of entries, or hold a name that is not UTF-8; a later entry of the
/// same name replaces an earlier one.
pub fn deserialize_database(data: &[u8]) -> (r: Option<Database<EncryptionResult>>)
    ensures
        parse_database(data@) is None ==> r is None,
        parse_database(data@) matches Some(m) ==> (r matches Some(db) && db.wf() && sealed_values(db@) == m),
{
    let n = data.len();
    if n < 8 {
        return None;
    }
    let count = read_u64_le(data, 0);
    assert(data@.take(8) =~= data@.subrange(0, 8));
    let mut pos: usize = 8;
    let mut remaining: u64 = count;
    let mut db: Database<EncryptionResult> = Database::new();
    assert(sealed_values(db@) =~= Map::<Seq<char>, Seq<u8>>::empty());
    while remaining > 0
        invariant
            n == data@.len(),
            pos <= n,
            db.wf(),
            parse_database(data@) == parse_entries(data@.skip(pos as int), remaining as nat, sealed_values(db@)),
        decreases remaining,
    {
        let (name, value, next) = match read_entry(data, pos) {
            Some(entry) => entry,
            None => return None,
        };
        let ghost before = sealed_values(db@);
        let sealed = match EncryptionResult::new(value) {
            Ok(sealed) => sealed,
            Err(_) => return None,
        };
        db.upsert(name.as_str(), sealed);
        assert(sealed_values(db@) =~= before.insert(name@, sealed@));
        pos = next;
        remaining = remaining - 1;
    }
    Some(db)
}

} // verus!
