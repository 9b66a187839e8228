//! A vault: a database of sealed entries guarded by a master password.
//! Each entry is sealed under an Argon2id key derived from the master
//! password and a fresh salt; the master password itself is checked against
//! a peppered PBKDF2 hash.

use vstd::prelude::*;

use crate::csv_format::{
    csv_reads_back, csv_record, csv_records, csv_text, read_back, spec_csv_record, spec_csv_records, utf8_pairs,
};
use vstd::utf8::{decode_utf8, encode_utf8_decode_utf8, encode_utf8_valid_utf8, decode_utf8_encode_utf8, valid_utf8};
use crate::codec::{deserialize_database, encode_database, parse_database, sealed_values, serialize_database};
use crate::db_base::error::DatabaseError;
use crate::db_base::{name_key, views, Database};
use crate::order::{contains_bytes, occurs_in};
use crate::encryption::aes_wrapper::aes_gcm::{gcm_open, gcm_sealed};
use crate::encryption::{salt_part, slice_range, EncryptionError, EncryptionResult};
use crate::hash::argon2_wrapper::{argon2_hash_password, argon2_hash_password_with_salt, spec_argon2_default};
use crate::hash::pbkdf2_wrapper::{pbkdf2_hash_password, pbkdf2_hash_password_with_salt};
use crate::hash::{compare_hash, spec_peppered_pbkdf2, HashResult};

pub mod db_interface;
pub mod forget_hash;

verus! {

/// Shortest stored value that holds a nonce and a salt.
pub const MIN_SEALED_LEN: usize = 44;

/// Longest master password that Argon2 accepts.
pub const MAX_PASSWORD_LEN: usize = 0xFFFF_FFFF;

/// `blob` seals `plaintext` under the key that `password` gives with the
/// salt stored in `blob`.
pub open spec fn sealed_for(password: Seq<u8>, plaintext: Seq<u8>, blob: Seq<u8>) -> bool {
    gcm_sealed(spec_argon2_default(password, salt_part(blob)), plaintext, salt_part(blob), blob)
}

/// What opening `blob` with `password` gives.
pub open spec fn open_with(password: Seq<u8>, blob: Seq<u8>) -> Option<Seq<u8>> {
    gcm_open(spec_argon2_default(password, salt_part(blob)), blob)
}

/// The outcome of reading one entry.
pub enum ReadOutcome {
    InvalidPassword,
    NotFound,
    FailedHash,
    FailedAes,
    Opened(Seq<u8>),
}

/// The outcome of loading a stored vault.
pub enum LoadOutcome {
    FailedHash,
    FailedAes,
    FailedDeserialize,
    InvalidPassword,
    /// The entries, and the salt and hash that check the master password.
    Loaded(Map<Seq<char>, Seq<u8>>, Seq<u8>, Seq<u8>),
}

/// What loading opened vault bytes gives: the stored entries, then the
/// 32-byte password hash, then its 32-byte salt.
pub open spec fn plain_outcome(plain: Seq<u8>, password: Seq<u8>) -> LoadOutcome {
    if plain.len() < 64 {
        LoadOutcome::FailedDeserialize
    } else {
        let n = plain.len();
        let salt = plain.subrange(n - 32, n as int);
        let hash = plain.subrange(n - 64, n - 32);
        if spec_peppered_pbkdf2(password, salt) != hash {
            LoadOutcome::InvalidPassword
        } else {
            match parse_database(plain.subrange(0, n - 64)) {
                None => LoadOutcome::FailedDeserialize,
                Some(m) => LoadOutcome::Loaded(m, salt, hash),
            }
        }
    }
}

/// What loading the sealed vault `sealed` with `password` gives.
pub open spec fn load_outcome(sealed: Seq<u8>, password: Seq<u8>) -> LoadOutcome {
    if password.len() > MAX_PASSWORD_LEN {
        LoadOutcome::FailedHash
    } else {
        match open_with(password, sealed) {
            None => LoadOutcome::FailedAes,
            Some(plain) => plain_outcome(plain, password),
        }
    }
}

/// The key and value of each CSV record that has at least two fields: its
/// first two fields, in record order.
pub open spec fn csv_pairs(rows: Seq<Option<Seq<Seq<char>>>>) -> Seq<(Seq<char>, Seq<char>)>
    decreases rows.len(),
{
    if rows.len() == 0 {
        Seq::empty()
    } else {
        let rest = csv_pairs(rows.drop_last());
        match rows.last() {
            Some(f) => if f.len() >= 2 {
                rest.push((f[0], f[1]))
            } else {
                rest
            },
            None => rest,
        }
    }
}

/// The values of `pairs[..n]` can be sealed, and `pairs[n]`, if there is
/// one, is too long to seal.
pub open spec fn sealable_prefix(pairs: Seq<(Seq<char>, Seq<char>)>, n: int) -> bool {
    &&& 0 <= n <= pairs.len()
    &&& forall|i: int| 0 <= i < n ==> name_key((#[trigger] pairs[i]).1).len() <= crate::cipher::AES_P_MAX
    &&& n < pairs.len() ==> name_key(pairs[n].1).len() > crate::cipher::AES_P_MAX
}

/// Some pair among `pairs` has the key `k`.
pub open spec fn pairs_name(pairs: Seq<(Seq<char>, Seq<char>)>, k: Seq<char>) -> bool {
    exists|i: int| 0 <= i < pairs.len() && (#[trigger] pairs[i]).0 == k
}

/// `pairs[i]` is the first pair with the key `k`.
pub open spec fn first_pair(pairs: Seq<(Seq<char>, Seq<char>)>, k: Seq<char>, i: int) -> bool {
    &&& 0 <= i < pairs.len()
    &&& pairs[i].0 == k
    &&& forall|j: int| 0 <= j < i ==> (#[trigger] pairs[j]).0 != k
}

/// `after` is `before` with `pairs` imported under `password`: a pair whose
/// key is already present is skipped, and each other key holds the first
/// value given for it, sealed.
pub open spec fn imported(
    before: Map<Seq<char>, Seq<u8>>,
    after: Map<Seq<char>, Seq<u8>>,
    pairs: Seq<(Seq<char>, Seq<char>)>,
    password: Seq<u8>,
) -> bool {
    &&& forall|k: Seq<char>| #[trigger] after.contains_key(k) <==> (before.contains_key(k) || pairs_name(pairs, k))
    &&& forall|k: Seq<char>| #[trigger] before.contains_key(k) ==> after[k] == before[k]
    &&& forall|k: Seq<char>| #[trigger] after.contains_key(k) && !before.contains_key(k) ==> exists|i: int|
        #[trigger] first_pair(pairs, k, i) && sealed_for(password, name_key(pairs[i].1), after[k])
}

proof fn lemma_csv_pairs_prefix(rows: Seq<Option<Seq<Seq<char>>>>, i: int)
    requires
        0 <= i <= rows.len(),
    ensures
        csv_pairs(rows.take(i)).len() <= csv_pairs(rows).len(),
        csv_pairs(rows.take(i)) =~= csv_pairs(rows).take(csv_pairs(rows.take(i)).len() as int),
    decreases rows.len(),
{
    if i == rows.len() {
        assert(rows.take(i) =~= rows);
    } else {
        let shorter = rows.drop_last();
        assert(rows.take(i) =~= shorter.take(i));
        lemma_csv_pairs_prefix(shorter, i);
    }
}

proof fn lemma_imported_none(before: Map<Seq<char>, Seq<u8>>, after: Map<Seq<char>, Seq<u8>>, password: Seq<u8>)
    requires
        imported(before, after, Seq::empty(), password),
    ensures
        after == before,
{
    assert(after =~= before);
}

proof fn lemma_imported_step(
    before: Map<Seq<char>, Seq<u8>>,
    mid: Map<Seq<char>, Seq<u8>>,
    after: Map<Seq<char>, Seq<u8>>,
    pairs: Seq<(Seq<char>, Seq<char>)>,
    k: Seq<char>,
    v: Seq<char>,
    password: Seq<u8>,
)
    requires
        imported(before, mid, pairs, password),
        mid.contains_key(k) ==> after == mid,
        !mid.contains_key(k) ==> after == mid.insert(k, after[k]) && sealed_for(password, name_key(v), after[k]),
    ensures
        imported(before, after, pairs.push((k, v)), password),
{
    let longer = pairs.push((k, v));
    assert forall|x: Seq<char>| pairs_name(pairs, x) implies pairs_name(longer, x) by {
        let i = choose|i: int| 0 <= i < pairs.len() && (#[trigger] pairs[i]).0 == x;
        assert(longer[i] == pairs[i]);
    }
    assert(longer[pairs.len() as int] == (k, v));
    assert forall|x: Seq<char>| x != k && pairs_name(longer, x) implies pairs_name(pairs, x) by {
        let i = choose|i: int| 0 <= i < longer.len() && (#[trigger] longer[i]).0 == x;
        assert(pairs[i] == longer[i]);
    }
    assert forall|x: Seq<char>| #[trigger] after.contains_key(x) <==> (before.contains_key(x) || pairs_name(longer, x)) by {
        if x == k {
            assert(pairs_name(longer, k));
        }
    }
    assert forall|x: Seq<char>| #[trigger] after.contains_key(x) && !before.contains_key(x) implies exists|i: int|
        #[trigger] first_pair(longer, x, i) && sealed_for(password, name_key(longer[i].1), after[x]) by {
        if mid.contains_key(x) {
            let i = choose|i: int| #[trigger] first_pair(pairs, x, i) && sealed_for(password, name_key(pairs[i].1), mid[x]);
            assert(longer[i] == pairs[i]);
            assert forall|j: int| 0 <= j < i implies (#[trigger] longer[j]).0 != x by {
                assert(longer[j] == pairs[j]);
            }
            assert(first_pair(longer, x, i));
        } else {
            assert(x == k);
            let n = pairs.len() as int;
            assert forall|j: int| 0 <= j < n implies (#[trigger] longer[j]).0 != x by {
                assert(longer[j] == pairs[j]);
                if pairs[j].0 == x {
                    assert(pairs_name(pairs, x));
                }
            }
            assert(first_pair(longer, x, n));
        }
    }
}

/// Row `i` of parsed CSV records was read and has at least two fields.
pub open spec fn readable_pair(rows: Seq<Option<Seq<Seq<char>>>>, i: int) -> bool {
    0 <= i < rows.len() && rows[i] is Some && rows[i]->Some_0.len() >= 2
}

proof fn lemma_csv_pairs_rows(rows: Seq<Option<Seq<Seq<char>>>>)
    ensures
        forall|i: int| #[trigger] readable_pair(rows, i) ==> csv_pairs(rows.take(i)).len() < csv_pairs(rows).len()
            && csv_pairs(rows)[csv_pairs(rows.take(i)).len() as int] == (rows[i]->Some_0[0], rows[i]->Some_0[1]),
    decreases rows.len(),
{
    if rows.len() > 0 {
        let shorter = rows.drop_last();
        let last = rows.len() - 1;
        lemma_csv_pairs_rows(shorter);
        assert(rows.take(last) =~= shorter);
        assert(rows.last() == rows[last]);
        let ps = csv_pairs(shorter);
        let all = csv_pairs(rows);
        assert(all.len() >= ps.len());
        assert forall|m: int| 0 <= m < ps.len() implies all[m] == ps[m] by {}
        assert forall|i: int| #[trigger] readable_pair(rows, i) implies csv_pairs(rows.take(i)).len() < all.len()
            && all[csv_pairs(rows.take(i)).len() as int] == (rows[i]->Some_0[0], rows[i]->Some_0[1]) by {
            if i < last {
                assert(rows.take(i) =~= shorter.take(i));
                assert(shorter[i] == rows[i]);
                assert(readable_pair(shorter, i));
            }
        }
    }
}

/// The row that the `m`-th pair of `csv_pairs(rows)` comes from.
proof fn lemma_pair_row(rows: Seq<Option<Seq<Seq<char>>>>, m: int) -> (i: int)
    requires
        0 <= m < csv_pairs(rows).len(),
    ensures
        readable_pair(rows, i),
        csv_pairs(rows)[m] == (rows[i]->Some_0[0], rows[i]->Some_0[1]),
        csv_pairs(rows.take(i)).len() == m,
    decreases rows.len(),
{
    let shorter = rows.drop_last();
    let last = rows.len() - 1;
    assert(rows.take(last) =~= shorter);
    assert(rows.last() == rows[last]);
    let ps = csv_pairs(shorter);
    if m < ps.len() {
        let i = lemma_pair_row(shorter, m);
        assert(rows.take(i) =~= shorter.take(i));
        assert(shorter[i] == rows[i]);
        i
    } else {
        last
    }
}

proof fn lemma_csv_pairs_take_monotone(rows: Seq<Option<Seq<Seq<char>>>>, i: int, j: int)
    requires
        0 <= i <= j <= rows.len(),
    ensures
        csv_pairs(rows.take(i)).len() <= csv_pairs(rows.take(j)).len(),
{
    lemma_csv_pairs_prefix(rows.take(j), i);
    assert(rows.take(j).take(i) =~= rows.take(i));
}

/// Importing parsed CSV records with the master password, when every value
/// can be sealed, succeeds and takes every readable record of at least two
/// fields: its first field becomes an entry name, and where that name is
/// new to the vault and no earlier such record has it, the entry seals the
/// record's second field. The vault's own entries stay as they were, and
/// no other name appears.
pub proof fn lemma_import_takes_every_record(
    before: DatabaseEncrypted,
    after: DatabaseEncrypted,
    rows: Seq<Option<Seq<Seq<char>>>>,
    password: Seq<u8>,
    r: Result<(), DatabaseError>,
)
    requires
        csv_import_done(before, after, rows, password, r),
        before.accepts(password),
        password.len() <= MAX_PASSWORD_LEN,
        forall|i: int| #[trigger] readable_pair(rows, i) ==> name_key(rows[i]->Some_0[1]).len() <= crate::cipher::AES_P_MAX,
    ensures
        r is Ok,
        forall|i: int| #[trigger] readable_pair(rows, i) ==> after@.contains_key(rows[i]->Some_0[0]),
        forall|i: int|
            #[trigger] readable_pair(rows, i) && !before@.contains_key(rows[i]->Some_0[0]) && (forall|j: int|
                0 <= j < i && #[trigger] readable_pair(rows, j) ==> rows[j]->Some_0[0] != rows[i]->Some_0[0])
                ==> sealed_for(password, name_key(rows[i]->Some_0[1]), after@[rows[i]->Some_0[0]]),
        forall|k: Seq<char>| #[trigger] before@.contains_key(k) ==> after@.contains_key(k) && after@[k] == before@[k],
        forall|k: Seq<char>| #[trigger] after@.contains_key(k) ==> before@.contains_key(k) || exists|i: int|
            #[trigger] readable_pair(rows, i) && rows[i]->Some_0[0] == k,
{
    let pairs = csv_pairs(rows);
    lemma_csv_pairs_rows(rows);
    let n = choose|n: int|
        #[trigger] sealable_prefix(pairs, n) && imported(before@, after@, pairs.take(n), password) && (n
            == pairs.len() ==> r is Ok) && (n < pairs.len() ==> (r matches Err(DatabaseError::FailedAes(msg)) && msg@
            == "Failed AES, invalid key"@));
    if n < pairs.len() {
        let i = lemma_pair_row(rows, n);
        assert(false);
    }
    assert(pairs.take(n) =~= pairs);
    assert forall|i: int| #[trigger] readable_pair(rows, i) implies after@.contains_key(rows[i]->Some_0[0]) by {
        let c = csv_pairs(rows.take(i)).len() as int;
        assert(pairs[c].0 == rows[i]->Some_0[0]);
        assert(pairs_name(pairs, rows[i]->Some_0[0]));
    }
    assert forall|i: int|
        #[trigger] readable_pair(rows, i) && !before@.contains_key(rows[i]->Some_0[0]) && (forall|j: int|
            0 <= j < i && #[trigger] readable_pair(rows, j) ==> rows[j]->Some_0[0] != rows[i]->Some_0[0])
            implies sealed_for(password, name_key(rows[i]->Some_0[1]), after@[rows[i]->Some_0[0]]) by {
        let k = rows[i]->Some_0[0];
        let c = csv_pairs(rows.take(i)).len() as int;
        assert(pairs[c].0 == k);
        assert(pairs_name(pairs, k));
        assert(after@.contains_key(k));
        let m = choose|m: int| #[trigger] first_pair(pairs, k, m) && sealed_for(password, name_key(pairs[m].1), after@[k]);
        if m < c {
            let j = lemma_pair_row(rows, m);
            if j >= i {
                lemma_csv_pairs_take_monotone(rows, i, j);
            }
            assert(false);
        }
        if m > c {
            assert(pairs[c].0 == k);
            assert(false);
        }
    }
    assert forall|k: Seq<char>| #[trigger] after@.contains_key(k) implies before@.contains_key(k) || exists|i: int|
        #[trigger] readable_pair(rows, i) && rows[i]->Some_0[0] == k by {
        if !before@.contains_key(k) {
            assert(pairs_name(pairs, k));
            let m = choose|m: int| 0 <= m < pairs.len() && (#[trigger] pairs[m]).0 == k;
            let i = lemma_pair_row(rows, m);
        }
    }
}

/// Why an export stopped.
pub enum ExportFailure {
    Hash,
    Aes,
    Csv,
}

/// The header row of an exported vault.
pub open spec fn csv_header() -> Seq<Seq<u8>> {
    seq![name_key("Username"@), name_key("Password"@)]
}

/// The CSV row of the entry `k` of `m`: its name and its opened value.
pub open spec fn export_row(m: Map<Seq<char>, Seq<u8>>, password: Seq<u8>, k: Seq<char>) -> Result<Seq<u8>, ExportFailure> {
    if m[k].len() < MIN_SEALED_LEN {
        Err(ExportFailure::Aes)
    } else if password.len() > MAX_PASSWORD_LEN {
        Err(ExportFailure::Hash)
    } else {
        match open_with(password, m[k]) {
            None => Err(ExportFailure::Aes),
            Some(p) => match spec_csv_record(seq![name_key(k), p]) {
                None => Err(ExportFailure::Csv),
                Some(b) => Ok(b),
            },
        }
    }
}

/// The CSV text of the entries `keys` of `m`, after the header row, or the
/// first failure met on the way.
pub open spec fn export_text(keys: Seq<Seq<char>>, m: Map<Seq<char>, Seq<u8>>, password: Seq<u8>) -> Result<Seq<u8>, ExportFailure>
    decreases keys.len(),
{
    if keys.len() == 0 {
        match spec_csv_record(csv_header()) {
            None => Err(ExportFailure::Csv),
            Some(h) => Ok(h),
        }
    } else {
        match export_text(keys.drop_last(), m, password) {
            Err(e) => Err(e),
            Ok(t) => match export_row(m, password, keys.last()) {
                Err(e) => Err(e),
                Ok(b) => Ok(t + b),
            },
        }
    }
}

proof fn lemma_export_text_stops(keys: Seq<Seq<char>>, m: Map<Seq<char>, Seq<u8>>, password: Seq<u8>, i: int)
    requires
        0 <= i <= keys.len(),
        export_text(keys.take(i), m, password) is Err,
    ensures
        export_text(keys, m, password) == export_text(keys.take(i), m, password),
    decreases keys.len(),
{
    if i == keys.len() {
        assert(keys.take(i) =~= keys);
    } else {
        let shorter = keys.drop_last();
        assert(keys.take(i) =~= shorter.take(i));
        lemma_export_text_stops(shorter, m, password, i);
    }
}

/// The records that an export of the names `keys` should write, given each
/// name's plaintext: a `Username,Password` header, then one row per name,
/// in the order given, of the name and its plaintext.
pub open spec fn rows_for(keys: Seq<Seq<char>>, plain: Map<Seq<char>, Seq<u8>>) -> Seq<Seq<Seq<u8>>> {
    seq![seq![name_key("Username"@), name_key("Password"@)]] + Seq::new(
        keys.len(),
        |i: int| seq![name_key(keys[i]), plain[keys[i]]],
    )
}

proof fn lemma_export_text_of_sealed(
    keys: Seq<Seq<char>>,
    m: Map<Seq<char>, Seq<u8>>,
    password: Seq<u8>,
    plain: Map<Seq<char>, Seq<u8>>,
)
    requires
        password.len() <= MAX_PASSWORD_LEN,
        forall|i: int|
            0 <= i < keys.len() ==> m.contains_key(#[trigger] keys[i]) && sealed_for(password, plain[keys[i]], m[keys[i]]),
    ensures
        export_text(keys, m, password) == match csv_text(rows_for(keys, plain)) {
            Some(t) => Ok::<Seq<u8>, ExportFailure>(t),
            None => Err(ExportFailure::Csv),
        },
    decreases keys.len(),
{
    let recs = rows_for(keys, plain);
    if keys.len() == 0 {
        assert(recs =~= seq![csv_header()]);
        assert(recs.drop_last() =~= Seq::<Seq<Seq<u8>>>::empty());
        assert(csv_text(recs.drop_last()) == Some(Seq::<u8>::empty()));
        assert(recs.last() == csv_header());
        if let Some(h) = spec_csv_record(csv_header()) {
            assert(Seq::<u8>::empty() + h =~= h);
            assert(csv_text(recs) == Some(h));
            assert(export_text(keys, m, password) == Ok::<Seq<u8>, ExportFailure>(h));
        } else {
            assert(csv_text(recs) is None);
        }
    } else {
        let shorter = keys.drop_last();
        let k = keys.last();
        assert forall|i: int| 0 <= i < shorter.len() implies m.contains_key(#[trigger] shorter[i]) && sealed_for(
            password,
            plain[shorter[i]],
            m[shorter[i]],
        ) by {
            assert(shorter[i] == keys[i]);
        }
        lemma_export_text_of_sealed(shorter, m, password, plain);
        assert(recs.drop_last() =~= rows_for(shorter, plain));
        assert(recs.last() == seq![name_key(k), plain[k]]);
        assert(keys[keys.len() - 1] == k);
        assert(m.contains_key(k) && sealed_for(password, plain[k], m[k]));
        assert(m[k].len() >= MIN_SEALED_LEN);
        assert(open_with(password, m[k]) == Some(plain[k]));
        let row = seq![name_key(k), plain[k]];
        assert(export_row(m, password, k) == match spec_csv_record(row) {
            None => Err::<Seq<u8>, ExportFailure>(ExportFailure::Csv),
            Some(b) => Ok(b),
        });
        assert(csv_text(recs) == match csv_text(rows_for(shorter, plain)) {
            Some(t) => match spec_csv_record(row) {
                Some(b) => Some(t + b),
                None => None,
            },
            None => None,
        });
        assert(keys.drop_last() == shorter);
        match csv_text(rows_for(shorter, plain)) {
            Some(t) => {
                assert(export_text(shorter, m, password) == Ok::<Seq<u8>, ExportFailure>(t));
            },
            None => {
                assert(export_text(shorter, m, password) == Err::<Seq<u8>, ExportFailure>(ExportFailure::Csv));
            },
        }
    }
}

/// Exporting a vault whose every entry was sealed with its master password
/// (as `insert`, `replace` and an import seal them) never fails to derive a
/// key or to open an entry: with that password the export returns exactly
/// the text that the CSV writer makes of a `Username,Password` header and,
/// for every entry in name order, a row of its name and its plaintext; it
/// fails only where the writer refuses a record, and leaves the vault as it
/// was.
pub proof fn lemma_export_opens_every_entry(
    d: DatabaseEncrypted,
    after: DatabaseEncrypted,
    password: Seq<u8>,
    plain: Map<Seq<char>, Seq<u8>>,
    r: Result<Vec<u8>, DatabaseError>,
)
    requires
        d.wf(),
        d.accepts(password),
        password.len() <= MAX_PASSWORD_LEN,
        forall|k: Seq<char>| #[trigger] d@.contains_key(k) ==> sealed_for(password, plain[k], d@[k]),
        export_done(d, after, password, r),
    ensures
        after == d,
        forall|k: Seq<char>| #[trigger] d@.contains_key(k) <==> d.keys().contains(k),
        rows_for(d.keys(), plain).len() == d.keys().len() + 1,
        match csv_text(rows_for(d.keys(), plain)) {
            Some(t) => r matches Ok(b) && b@ == t,
            None => r matches Err(DatabaseError::InvalidCsv(_)),
        },
{
    d.lemma_wf();
    let keys = d.keys();
    assert forall|i: int| 0 <= i < keys.len() implies d@.contains_key(#[trigger] keys[i]) && sealed_for(
        password,
        plain[keys[i]],
        d@[keys[i]],
    ) by {
        assert(keys.contains(keys[i]));
    }
    lemma_export_text_of_sealed(keys, d@, password, plain);
}

/// The names among `names`, in order, whose UTF-8 bytes hold those of
/// `pattern` as a consecutive run.
pub open spec fn names_matching(names: Seq<Seq<char>>, pattern: Seq<char>) -> Seq<Seq<char>>
    decreases names.len(),
{
    if names.len() == 0 {
        names
    } else {
        let rest = names_matching(names.drop_last(), pattern);
        if occurs_in(name_key(pattern), name_key(names.last())) {
            rest.push(names.last())
        } else {
            rest
        }
    }
}

proof fn lemma_names_matching_members(names: Seq<Seq<char>>, pattern: Seq<char>)
    ensures
        forall|k: Seq<char>| #[trigger] names_matching(names, pattern).contains(k) <==> (names.contains(k)
            && occurs_in(name_key(pattern), name_key(k))),
        pattern.len() == 0 ==> names_matching(names, pattern) == names,
    decreases names.len(),
{
    if names.len() > 0 {
        let shorter = names.drop_last();
        lemma_names_matching_members(shorter, pattern);
        assert(names =~= shorter.push(names.last()));
        assert forall|k: Seq<char>| #[trigger] names.contains(k) <==> (shorter.contains(k) || k == names.last()) by {
            if names.contains(k) && k != names.last() {
                let i = choose|i: int| 0 <= i < names.len() && names[i] == k;
                assert(shorter[i] == k);
            }
            if shorter.contains(k) {
                let i = choose|i: int| 0 <= i < shorter.len() && shorter[i] == k;
                assert(names[i] == k);
            }
            if k == names.last() {
                assert(names[names.len() - 1] == k);
            }
        }
        let rest = names_matching(shorter, pattern);
        assert forall|k: Seq<char>| #[trigger] rest.push(names.last()).contains(k) <==> (rest.contains(k) || k
            == names.last()) by {
            if rest.push(names.last()).contains(k) && k != names.last() {
                let i = choose|i: int| 0 <= i < rest.len() + 1 && rest.push(names.last())[i] == k;
                assert(rest[i] == k);
            }
            if rest.contains(k) {
                let i = choose|i: int| 0 <= i < rest.len() && rest[i] == k;
                assert(rest.push(names.last())[i] == k);
            }
            if k == names.last() {
                assert(rest.push(names.last())[rest.len() as int] == k);
            }
        }
        if pattern.len() == 0 {
            let hay = name_key(names.last());
            assert(name_key(pattern) =~= Seq::<u8>::empty());
            assert(hay.subrange(0int, 0int + name_key(pattern).len()) =~= name_key(pattern));
            assert(occurs_in(name_key(pattern), hay));
        }
    }
}

proof fn lemma_names_matching_filter(names: Seq<Seq<char>>, pattern: Seq<char>)
    ensures
        names_matching(names, pattern) == names.filter(|k: Seq<char>| occurs_in(name_key(pattern), name_key(k))),
    decreases names.len(),
{
    let pred = |k: Seq<char>| occurs_in(name_key(pattern), name_key(k));
    reveal(Seq::filter);
    if names.len() > 0 {
        lemma_names_matching_filter(names.drop_last(), pattern);
        assert(names.drop_last().filter(pred) == names_matching(names.drop_last(), pattern));
        assert(names.filter(pred) == (if pred(names.last()) {
            names.drop_last().filter(pred).push(names.last())
        } else {
            names.drop_last().filter(pred)
        }));
    } else {
        assert(names.filter(pred) == names);
    }
}

/// Searching the names by a pattern lists exactly the vault's names whose
/// UTF-8 bytes hold the pattern's bytes as a consecutive run; the empty
/// pattern lists every name, in the vault's order.
pub proof fn lemma_search_lists_names_holding_pattern(d: DatabaseEncrypted, pattern: Seq<char>)
    requires
        d.wf(),
    ensures
        forall|k: Seq<char>| #[trigger] names_matching(d.keys(), pattern).contains(k) <==> (d@.contains_key(k)
            && exists|s: int|
            0 <= s && s + name_key(pattern).len() <= name_key(k).len() && #[trigger] name_key(k).subrange(
                s,
                s + name_key(pattern).len(),
            ) == name_key(pattern)),
        pattern.len() == 0 ==> names_matching(d.keys(), pattern) == d.keys(),
        names_matching(d.keys(), pattern) == d.keys().filter(
            |k: Seq<char>|
                exists|s: int|
                    0 <= s && s + name_key(pattern).len() <= name_key(k).len() && #[trigger] name_key(k).subrange(
                        s,
                        s + name_key(pattern).len(),
                    ) == name_key(pattern),
        ),
{
    d.lemma_wf();
    lemma_names_matching_members(d.keys(), pattern);
    lemma_names_matching_filter(d.keys(), pattern);
    let p1 = |k: Seq<char>| occurs_in(name_key(pattern), name_key(k));
    let p2 = |k: Seq<char>|
        exists|s: int|
            0 <= s && s + name_key(pattern).len() <= name_key(k).len() && #[trigger] name_key(k).subrange(
                s,
                s + name_key(pattern).len(),
            ) == name_key(pattern);
    assert(p1 =~= p2);
    assert forall|k: Seq<char>| #[trigger] names_matching(d.keys(), pattern).contains(k) <==> (d@.contains_key(k)
        && exists|s: int|
        0 <= s && s + name_key(pattern).len() <= name_key(k).len() && #[trigger] name_key(k).subrange(
            s,
            s + name_key(pattern).len(),
        ) == name_key(pattern)) by {
        if occurs_in(name_key(pattern), name_key(k)) {
            let s = choose|s: int| 0 <= s && s + name_key(pattern).len() <= name_key(k).len() && #[trigger] name_key(
                k,
            ).subrange(s, s + name_key(pattern).len()) == name_key(pattern);
        }
    }
}

/// The records that an export writes: the header row, then each entry's
/// name and opened value.
pub open spec fn export_records(keys: Seq<Seq<char>>, m: Map<Seq<char>, Seq<u8>>, password: Seq<u8>) -> Seq<Seq<Seq<u8>>>
    decreases keys.len(),
{
    if keys.len() == 0 {
        seq![csv_header()]
    } else {
        export_records(keys.drop_last(), m, password).push(
            seq![name_key(keys.last()), open_with(password, m[keys.last()])->Some_0],
        )
    }
}

proof fn lemma_export_records(keys: Seq<Seq<char>>, m: Map<Seq<char>, Seq<u8>>, password: Seq<u8>, t: Seq<u8>)
    requires
        export_text(keys, m, password) == Ok::<Seq<u8>, ExportFailure>(t),
    ensures
        csv_text(export_records(keys, m, password)) == Some(t),
        export_records(keys, m, password).len() == keys.len() + 1,
        export_records(keys, m, password)[0] == csv_header(),
        keys.len() > 0 ==> password.len() <= MAX_PASSWORD_LEN,
    decreases keys.len(),
{
    let recs = export_records(keys, m, password);
    if keys.len() == 0 {
        assert(recs.drop_last() =~= Seq::<Seq<Seq<u8>>>::empty());
        assert(recs.last() == csv_header());
        let h = spec_csv_record(csv_header())->Some_0;
        assert(Seq::<u8>::empty() + h =~= h);
    } else {
        let shorter = keys.drop_last();
        match export_text(shorter, m, password) {
            Ok(t0) => {
                lemma_export_records(shorter, m, password, t0);
                let k = keys.last();
                let row = export_row(m, password, k);
                assert(row is Ok);
                let b = row->Ok_0;
                assert(t == t0 + b);
                let p = open_with(password, m[k])->Some_0;
                assert(open_with(password, m[k]) == Some(p));
                assert(spec_csv_record(seq![name_key(k), p]) == Some(b));
                assert(recs.drop_last() =~= export_records(shorter, m, password));
                assert(recs.last() == seq![name_key(k), p]);
                assert(csv_text(recs.drop_last()) == Some(t0));
                assert(csv_text(recs) == Some(t0 + b));
            },
            Err(_) => {
                assert(export_text(keys, m, password) is Err);
            },
        }
    }
}

proof fn lemma_export_record_at(keys: Seq<Seq<char>>, m: Map<Seq<char>, Seq<u8>>, password: Seq<u8>, t: Seq<u8>, i: int)
    requires
        export_text(keys, m, password) == Ok::<Seq<u8>, ExportFailure>(t),
        0 <= i < keys.len(),
    ensures
        open_with(password, m[keys[i]]) is Some,
        export_records(keys, m, password)[i + 1] == seq![name_key(keys[i]), open_with(password, m[keys[i]])->Some_0],
    decreases keys.len(),
{
    let recs = export_records(keys, m, password);
    let shorter = keys.drop_last();
    match export_text(shorter, m, password) {
        Ok(t0) => {
            lemma_export_records(shorter, m, password, t0);
            assert(recs.drop_last() =~= export_records(shorter, m, password));
            if i < keys.len() - 1 {
                lemma_export_record_at(shorter, m, password, t0, i);
                assert(shorter[i] == keys[i]);
                assert(recs[i + 1] == export_records(shorter, m, password)[i + 1]);
            } else {
                let k = keys.last();
                assert(export_row(m, password, k) is Ok);
                assert(keys[i] == k);
                assert(recs[i + 1] == recs.last());
            }
        },
        Err(_) => {
            assert(export_text(keys, m, password) is Err);
        },
    }
}

proof fn lemma_csv_pairs_of_pairs(rows: Seq<Option<Seq<Seq<char>>>>)
    requires
        forall|i: int| 0 <= i < rows.len() ==> (#[trigger] rows[i]) is Some && rows[i]->Some_0.len() == 2,
    ensures
        csv_pairs(rows).len() == rows.len(),
        forall|i: int|
            0 <= i < rows.len() ==> #[trigger] csv_pairs(rows)[i] == (rows[i]->Some_0[0], rows[i]->Some_0[1]),
    decreases rows.len(),
{
    if rows.len() > 0 {
        let shorter = rows.drop_last();
        assert forall|i: int| 0 <= i < shorter.len() implies (#[trigger] shorter[i]) is Some && shorter[i]->Some_0.len()
            == 2 by {
            assert(shorter[i] == rows[i]);
        }
        lemma_csv_pairs_of_pairs(shorter);
        assert(rows.last() == rows[rows.len() - 1]);
        assert forall|i: int| 0 <= i < rows.len() implies #[trigger] csv_pairs(rows)[i] == (
            rows[i]->Some_0[0],
            rows[i]->Some_0[1],
        ) by {
            if i < rows.len() - 1 {
                assert(shorter[i] == rows[i]);
                assert(csv_pairs(shorter)[i] == csv_pairs(rows)[i]);
            }
        }
    }
}

/// Exporting a vault as CSV text and importing that text, with the same
/// master password, into a vault that holds none of its names gives every
/// entry back: the importing vault then has its own entries, unchanged, and
/// each exported name, opening to the same value. The import reads the text
/// with the `csv` crate, and `csv_reads_back` is what the library relies on
/// of it; `insert_from_csv` ensures it of the text it reads. The values must
/// be UTF-8 text, since the CSV reader refuses other records, and short
/// enough to seal.
pub proof fn lemma_export_then_import(
    src: DatabaseEncrypted,
    text: Seq<u8>,
    before: DatabaseEncrypted,
    after: DatabaseEncrypted,
    password: Seq<u8>,
    r: Result<(), DatabaseError>,
)
    requires
        src.wf(),
        export_text(src.keys(), src@, password) == Ok::<Seq<u8>, ExportFailure>(text),
        forall|k: Seq<char>|
            #[trigger] src@.contains_key(k) ==> (open_with(password, src@[k]) matches Some(p) && valid_utf8(p)
                && p.len() <= crate::cipher::AES_P_MAX),
        csv_reads_back(text),
        before.accepts(password),
        forall|k: Seq<char>| #[trigger] src@.contains_key(k) ==> !before@.contains_key(k),
        csv_import_done(before, after, spec_csv_records(text), password, r),
    ensures
        r is Ok,
        forall|k: Seq<char>| #[trigger] after@.contains_key(k) <==> (before@.contains_key(k) || src@.contains_key(k)),
        forall|k: Seq<char>| #[trigger] before@.contains_key(k) ==> after@[k] == before@[k],
        forall|k: Seq<char>| #[trigger] src@.contains_key(k) ==> open_with(password, after@[k]) == open_with(password, src@[k]),
{
    src.lemma_wf();
    let keys = src.keys();
    let m = src@;
    lemma_export_records(keys, m, password, text);
    let recs = export_records(keys, m, password);
    assert(utf8_pairs(recs)) by {
        assert forall|i: int| 0 <= i < recs.len() implies (#[trigger] recs[i]).len() == 2 && valid_utf8(recs[i][0])
            && valid_utf8(recs[i][1]) by {
            if i == 0 {
                encode_utf8_valid_utf8("Username"@);
                encode_utf8_valid_utf8("Password"@);
                assert(recs[0][0] == name_key("Username"@));
                assert(recs[0][1] == name_key("Password"@));
            } else {
                let k = keys[i - 1];
                lemma_export_record_at(keys, m, password, text, i - 1);
                assert(keys.contains(k));
                assert(m.contains_key(k));
                assert(recs[(i - 1) + 1] == recs[i]);
                encode_utf8_valid_utf8(k);
            }
        }
    }
    let rows = read_back(recs);
    assert(spec_csv_records(text) == rows);
    assert forall|i: int| 0 <= i < rows.len() implies (#[trigger] rows[i]) is Some && rows[i]->Some_0.len() == 2 by {
        lemma_export_record_at(keys, m, password, text, i);
        assert(recs.drop_first()[i] == recs[i + 1]);
    }
    lemma_csv_pairs_of_pairs(rows);
    let pairs = csv_pairs(rows);
    assert forall|i: int| 0 <= i < pairs.len() implies (#[trigger] pairs[i]).0 == keys[i] && name_key(pairs[i].1)
        == open_with(password, m[keys[i]])->Some_0 by {
        let k = keys[i];
        lemma_export_record_at(keys, m, password, text, i);
        assert(keys.contains(k));
        assert(recs.drop_first()[i] == recs[i + 1]);
        encode_utf8_decode_utf8(k);
        decode_utf8_encode_utf8(open_with(password, m[k])->Some_0);
    }
    let n = choose|n: int|
        #[trigger] sealable_prefix(pairs, n) && imported(before@, after@, pairs.take(n), password) && (n
            == pairs.len() ==> r is Ok) && (n < pairs.len() ==> (r matches Err(DatabaseError::FailedAes(msg)) && msg@
            == "Failed AES, invalid key"@));
    if n < pairs.len() {
        let k = keys[n];
        assert(keys.contains(k));
        assert(m.contains_key(k));
        assert(name_key(pairs[n].1) == open_with(password, m[k])->Some_0);
        assert(false);
    }
    assert(pairs.take(n) =~= pairs);
    assert forall|k: Seq<char>| #[trigger] pairs_name(pairs, k) <==> m.contains_key(k) by {
        if m.contains_key(k) {
            let i = choose|i: int| 0 <= i < keys.len() && keys[i] == k;
            assert(pairs[i].0 == k);
            assert(pairs_name(pairs, k));
        }
        if pairs_name(pairs, k) {
            let i = choose|i: int| 0 <= i < pairs.len() && (#[trigger] pairs[i]).0 == k;
            assert(keys[i] == k);
            assert(keys.contains(k));
        }
    }
    assert forall|k: Seq<char>| #[trigger] after@.contains_key(k) <==> (before@.contains_key(k) || m.contains_key(k)) by {
        assert(pairs_name(pairs, k) <==> m.contains_key(k));
    }
    assert forall|k: Seq<char>| #[trigger] m.contains_key(k) implies open_with(password, after@[k]) == open_with(
        password,
        m[k],
    ) by {
        assert(pairs_name(pairs, k));
        assert(after@.contains_key(k) && !before@.contains_key(k));
        let i = choose|i: int| #[trigger] first_pair(pairs, k, i) && sealed_for(password, name_key(pairs[i].1), after@[k]);
        assert(keys[i] == k);
    }
}

/// A vault: named sealed entries and the salted hash of its master password.
pub struct DatabaseEncrypted {
    db: Database<EncryptionResult>,
    confirmation_hash: HashResult,
}

impl View for DatabaseEncrypted {
    type V = Map<Seq<char>, Seq<u8>>;

    /// The sealed bytes stored under each name.
    closed spec fn view(&self) -> Map<Seq<char>, Seq<u8>> {
        sealed_values(self.db@)
    }
}

impl DatabaseEncrypted {
    /// The entry names, in order.
    pub closed spec fn keys(&self) -> Seq<Seq<char>> {
        self.db.keys()
    }

    /// The salt of the master password's hash.
    pub closed spec fn check_salt(&self) -> Seq<u8> {
        self.confirmation_hash.salt()
    }

    /// The master password's peppered hash.
    pub closed spec fn check_hash(&self) -> Seq<u8> {
        self.confirmation_hash.hash()
    }

    /// `password` is the master password.
    pub open spec fn accepts(&self, password: Seq<u8>) -> bool {
        spec_peppered_pbkdf2(password, self.check_salt()) == self.check_hash()
    }

    /// The entries are kept as a well-formed database.
    pub closed spec fn wf(&self) -> bool {
        self.db.wf()
    }

    /// The bytes that a vault is stored as before sealing: its entries, then
    /// the master password's hash, then its salt.
    pub open spec fn stored_bytes(&self) -> Seq<u8> {
        encode_database(self.keys(), self@) + self.check_hash() + self.check_salt()
    }

    /// What reading `name` with `password` gives.
    pub open spec fn read_outcome(&self, name: Seq<char>, password: Seq<u8>) -> ReadOutcome {
        if !self.accepts(password) {
            ReadOutcome::InvalidPassword
        } else if !self@.contains_key(name) {
            ReadOutcome::NotFound
        } else if self@[name].len() < MIN_SEALED_LEN {
            ReadOutcome::FailedAes
        } else if password.len() > MAX_PASSWORD_LEN {
            ReadOutcome::FailedHash
        } else {
            match open_with(password, self@[name]) {
                None => ReadOutcome::FailedAes,
                Some(p) => ReadOutcome::Opened(p),
            }
        }
    }

    /// The facts about a well-formed vault that its users rely on.
    pub proof fn lemma_wf(&self)
        requires
            self.wf(),
        ensures
            self.check_salt().len() == 32,
            self.check_hash().len() == 32,
            crate::db_base::sorted_names(self.keys()),
            self.keys().len() <= usize::MAX,
            forall|i: int| 0 <= i < self.keys().len() ==> name_key(#[trigger] self.keys()[i]).len() <= usize::MAX,
            forall|k: Seq<char>| #[trigger] self@.contains_key(k) <==> self.keys().contains(k),
            forall|k: Seq<char>| #[trigger] self@.contains_key(k) ==> self@[k].len() <= usize::MAX,
    {
        self.confirmation_hash.lemma_lengths();
        self.db.lemma_keys();
        assert forall|k: Seq<char>| #[trigger] self@.contains_key(k) implies self@[k].len() <= usize::MAX by {
            self.db@[k].lemma_len_fits();
        }
        assert forall|k: Seq<char>| #[trigger] self@.contains_key(k) <==> self.keys().contains(k) by {
            if self.keys().contains(k) {
                let i = choose|i: int| 0 <= i < self.keys().len() && self.keys()[i] == k;
                assert(self.db@.contains_key(self.keys()[i]));
            }
        }
    }

    /// A new, empty vault guarded by `password`.
    pub fn new(password: &[u8]) -> (r: Result<Self, DatabaseError>)
        ensures
            r matches Ok(d) && d.wf() && d@ == Map::<Seq<char>, Seq<u8>>::empty() && d.accepts(password@),
    {
        let hash = Self::hash_password_pbkdf2(password)?;
        let db = Self { db: Database::new(), confirmation_hash: hash };
        assert(db@ =~= Map::<Seq<char>, Seq<u8>>::empty());
        Ok(db)
    }

    /// Loads opened vault bytes: entries, then hash, then salt.
    fn new_deserialize(serialized: &[u8], password: &[u8]) -> (r: Result<Self, DatabaseError>)
        ensures
            match plain_outcome(serialized@, password@) {
                LoadOutcome::Loaded(m, salt, hash) => r matches Ok(d) && d.wf() && d@ == m && d.check_salt()
                    == salt && d.check_hash() == hash,
                LoadOutcome::InvalidPassword => r == Err::<Self, DatabaseError>(DatabaseError::InvalidPassword),
                _ => r == Err::<Self, DatabaseError>(DatabaseError::FailedDeserialize),
            },
    {
        let n = serialized.len();
        if n < 64 {
            return Err(DatabaseError::FailedDeserialize);
        }
        let hash = match HashResult::new_with_salt_and_hash(
            slice_range(serialized, n - 32, n),
            slice_range(serialized, n - 64, n - 32),
        ) {
            Ok(hash) => hash,
            Err(_error) => return Err(DatabaseError::FailedDeserialize),
        };
        if !Self::hash_password_and_compare_internal(&hash, password) {
            return Err(DatabaseError::InvalidPassword);
        }
        let db = match deserialize_database(slice_range(serialized, 0, n - 64)) {
            Some(db) => db,
            None => return Err(DatabaseError::FailedDeserialize),
        };
        Ok(Self { db, confirmation_hash: hash })
    }

    /// Opens a sealed vault with `password` and loads it; also gives the key
    /// it was opened with.
    fn new_deserialize_encrypted_internal(serialized: &EncryptionResult, password: &[u8]) -> (r: Result<(Self, HashResult), DatabaseError>)
        requires
            serialized@.len() >= MIN_SEALED_LEN,
        ensures
            match load_outcome(serialized@, password@) {
                LoadOutcome::Loaded(m, salt, hash) => r matches Ok((d, _h)) && d.wf() && d@ == m && d.check_salt()
                    == salt && d.check_hash() == hash,
                LoadOutcome::InvalidPassword => r == Err::<(Self, HashResult), DatabaseError>(DatabaseError::InvalidPassword),
                LoadOutcome::FailedDeserialize => r == Err::<(Self, HashResult), DatabaseError>(DatabaseError::FailedDeserialize),
                LoadOutcome::FailedHash => r matches Err(DatabaseError::FailedHash(_)),
                LoadOutcome::FailedAes => r matches Err(DatabaseError::FailedAes(msg)) && msg@ == "Failed AES, invalid key"@,
            },
    {
        let hash = Self::hash_password_argon2_with_salt(password, serialized.get_salt_slice())?;
        let plaintext = match crate::encryption::default::decrypt(serialized, &hash) {
            Ok(plaintext) => plaintext,
            Err(error) => return Err(DatabaseError::from_encryption_error(error)),
        };
        let result = Self::new_deserialize(plaintext.as_slice(), password)?;
        Ok((result, hash))
    }

    /// The bytes the vault is stored as, before sealing.
    fn serialize(&self) -> (r: Result<Vec<u8>, DatabaseError>)
        requires
            self.wf(),
        ensures
            r matches Ok(data) && data@ == self.stored_bytes(),
    {
        let mut data = serialize_database(&self.db);
        data.extend_from_slice(self.confirmation_hash.get_hash());
        data.extend_from_slice(self.confirmation_hash.get_salt());
        Ok(data)
    }

    /// All entry names, in order.
    pub fn list(&self) -> (r: Result<Vec<String>, DatabaseError>)
        requires
            self.wf(),
        ensures
            r matches Ok(l) && crate::db_base::views(l@) == self.keys(),
    {
        self.db.list()
    }

    /// The entry names, in order, whose UTF-8 bytes hold those of `pattern`
    /// as a consecutive run.
    pub fn list_fuzzy_match(&self, pattern: &str) -> (r: Result<Vec<String>, DatabaseError>)
        requires
            self.wf(),
        ensures
            r matches Ok(l) && views(l@) == names_matching(self.keys(), pattern@),
    {
        let names = self.db.list()?;
        let ghost all = views(names@);
        let mut out: Vec<String> = Vec::new();
        let mut i: usize = 0;
        proof {
            assert(all.take(0) =~= Seq::<Seq<char>>::empty());
            assert(views(out@) =~= Seq::<Seq<char>>::empty());
        }
        while i < names.len()
            invariant
                i <= names@.len(),
                all == views(names@),
                views(out@) == names_matching(all.take(i as int), pattern@),
            decreases names@.len() - i,
        {
            let ghost before = views(out@);
            assert(all.take(i + 1).drop_last() =~= all.take(i as int));
            assert(all.take(i + 1).last() == names@[i as int]@);
            if contains_bytes(names[i].as_str().as_bytes(), pattern.as_bytes()) {
                out.push(names[i].clone());
                assert(views(out@) =~= before.push(names@[i as int]@));
            }
            i = i + 1;
        }
        assert(all.take(i as int) =~= all);
        Ok(out)
    }

    fn hash_password_pbkdf2_with_salt(password: &[u8], salt: &[u8]) -> (r: Result<HashResult, DatabaseError>)
        ensures
            r is Ok <==> salt@.len() == 32,
            r matches Ok(h) ==> h.salt() == salt@ && h.hash() == spec_peppered_pbkdf2(password@, salt@),
            r is Err ==> r matches Err(DatabaseError::FailedHash(_)),
    {
        match pbkdf2_hash_password_with_salt(password, salt) {
            Ok(hash) => Ok(hash),
            Err(error) => Err(DatabaseError::FailedHash(error.to_string())),
        }
    }

    fn hash_password_pbkdf2(password: &[u8]) -> (r: Result<HashResult, DatabaseError>)
        ensures
            r matches Ok(h) && h.salt().len() == 32 && h.hash() == spec_peppered_pbkdf2(password@, h.salt()),
    {
        match pbkdf2_hash_password(password) {
            Ok(hash) => Ok(hash),
            Err(error) => Err(DatabaseError::FailedHash(error.to_string())),
        }
    }

    fn hash_password_argon2_with_salt(password: &[u8], salt: &[u8]) -> (r: Result<HashResult, DatabaseError>)
        ensures
            r is Ok <==> (salt@.len() == 32 && password@.len() <= MAX_PASSWORD_LEN),
            r matches Ok(h) ==> h.salt() == salt@ && h.hash() == spec_argon2_default(password@, salt@),
            r is Err ==> r matches Err(DatabaseError::FailedHash(_)),
    {
        match argon2_hash_password_with_salt(password, salt) {
            Ok(value) => Ok(value),
            Err(error) => Err(DatabaseError::FailedHash(error.to_string())),
        }
    }

    fn hash_password_argon2(password: &[u8]) -> (r: Result<HashResult, DatabaseError>)
        ensures
            r is Ok <==> password@.len() <= MAX_PASSWORD_LEN,
            r matches Ok(h) ==> h.salt().len() == 32 && h.hash() == spec_argon2_default(password@, h.salt()),
            r is Err ==> r matches Err(DatabaseError::FailedHash(_)),
    {
        match argon2_hash_password(password) {
            Ok(value) => Ok(value),
            Err(error) => Err(DatabaseError::FailedHash(error.to_string())),
        }
    }

    fn hash_password_and_compare_internal(hash: &HashResult, password: &[u8]) -> (same: bool)
        ensures
            same == (spec_peppered_pbkdf2(password@, hash.salt()) == hash.hash()),
    {
        proof {
            hash.lemma_lengths();
        }
        let result = match Self::hash_password_pbkdf2_with_salt(password, hash.get_salt()) {
            Ok(hash) => hash,
            Err(_error) => return false,
        };
        compare_hash(result.get_hash(), hash.get_hash())
    }

    /// Imports the key–value pairs of parsed CSV records (`None` for a record
    /// that could not be read), each value sealed under a key freshly derived
    /// from `password`. A key already present is skipped; the first failure
    /// to seal stops the import, keeping what was imported before it.
    pub fn insert_records(&mut self, rows: &Vec<Option<Vec<String>>>, password: &[u8]) -> (r: Result<(), DatabaseError>)
        requires
            old(self).wf(),
        ensures
            final(self).wf(),
            final(self).check_salt() == old(self).check_salt(),
            final(self).check_hash() == old(self).check_hash(),
            !old(self).accepts(password@) ==> r == Err::<(), DatabaseError>(DatabaseError::InvalidPassword)
                && final(self)@ == old(self)@,
            old(self).accepts(password@) && password@.len() > MAX_PASSWORD_LEN && csv_pairs(rows.deep_view()).len() > 0
                ==> (r matches Err(DatabaseError::FailedHash(_)) && final(self)@ == old(self)@),
            old(self).accepts(password@) && (password@.len() <= MAX_PASSWORD_LEN || csv_pairs(rows.deep_view()).len()
                == 0) ==> exists|n: int|
                #[trigger] sealable_prefix(csv_pairs(rows.deep_view()), n) && imported(
                    old(self)@,
                    final(self)@,
                    csv_pairs(rows.deep_view()).take(n),
                    password@,
                ) && (n == csv_pairs(rows.deep_view()).len() ==> r is Ok) && (n < csv_pairs(rows.deep_view()).len()
                    ==> (r matches Err(DatabaseError::FailedAes(msg)) && msg@ == "Failed AES, invalid key"@)),
    {
        if !self.hash_password_and_compare(password) {
            return Err(DatabaseError::InvalidPassword);
        }
        let ghost rows_v = rows.deep_view();
        let ghost all = csv_pairs(rows_v);
        let ghost start = self@;
        proof {
            assert(rows_v.take(0) =~= Seq::<Option<Seq<Seq<char>>>>::empty());
            assert(imported(start, self@, Seq::empty(), password@));
        }
        let mut i: usize = 0;
        while i < rows.len()
            invariant
                i <= rows@.len(),
                rows_v == rows.deep_view(),
                all == csv_pairs(rows_v),
                start == old(self)@,
                old(self).accepts(password@),
                self.wf(),
                self.check_salt() == old(self).check_salt(),
                self.check_hash() == old(self).check_hash(),
                forall|j: int| 0 <= j < csv_pairs(rows_v.take(i as int)).len() ==> name_key(
                    (#[trigger] csv_pairs(rows_v.take(i as int))[j]).1,
                ).len() <= crate::cipher::AES_P_MAX,
                imported(start, self@, csv_pairs(rows_v.take(i as int)), password@),
                csv_pairs(rows_v.take(i as int)).len() > 0 ==> password@.len() <= MAX_PASSWORD_LEN,
            decreases rows@.len() - i,
        {
            let ghost done = csv_pairs(rows_v.take(i as int));
            proof {
                assert(rows_v.take(i + 1).drop_last() =~= rows_v.take(i as int));
                assert(rows_v[i as int] == rows@[i as int].deep_view());
                lemma_csv_pairs_prefix(rows_v, i as int);
                lemma_csv_pairs_prefix(rows_v, i + 1);
            }
            match &rows[i] {
                Some(fields) => {
                    if fields.len() >= 2 {
                        let key = fields[0].as_str();
                        let value = fields[1].as_str().as_bytes();
                        let ghost pair = (fields@[0]@, fields@[1]@);
                        proof {
                            assert(fields.deep_view()[0] == fields@[0]@);
                            assert(fields.deep_view()[1] == fields@[1]@);
                            assert(csv_pairs(rows_v.take(i + 1)) == done.push(pair));
                            assert(all.take(done.len() as int) =~= done);
                            let ext = csv_pairs(rows_v.take(i + 1));
                            assert(ext[done.len() as int] == pair);
                            assert(all.take(ext.len() as int)[done.len() as int] == all[done.len() as int]);
                            assert(all[done.len() as int] == pair);
                            assert forall|j: int| 0 <= j < done.len() implies name_key((#[trigger] all[j]).1).len()
                                <= crate::cipher::AES_P_MAX by {
                                assert(all.take(done.len() as int)[j] == all[j]);
                                assert(done[j] == all[j]);
                            }
                        }
                        let hash = match Self::hash_password_argon2(password) {
                            Ok(h) => h,
                            Err(e) => {
                                proof {
                                    lemma_imported_none(start, self@, password@);
                                }
                                return Err(e);
                            },
                        };
                        let data = match crate::encryption::default::encrypt(value, &hash) {
                            Ok(data) => data,
                            Err(error) => {
                                proof {
                                    assert(sealable_prefix(all, done.len() as int));
                                }
                                return Err(DatabaseError::from_encryption_error(error));
                            },
                        };
                        let ghost sealed = data@;
                        let ghost mid = self@;
                        let ghost mid_db = self.db@;
                        let _sealed_len = data.as_slice().len();
                        let _ = self.db.insert(key, data);
                        proof {
                            if !mid.contains_key(key@) {
                                assert(sealed_values(self.db@) =~= sealed_values(mid_db).insert(key@, sealed));
                            }
                            lemma_imported_step(start, mid, self@, done, pair.0, pair.1, password@);
                        }
                    } else {
                        proof {
                            assert(csv_pairs(rows_v.take(i + 1)) == done);
                        }
                    }
                },
                None => {
                    proof {
                        assert(csv_pairs(rows_v.take(i + 1)) == done);
                    }
                },
            }
            i = i + 1;
        }
        proof {
            assert(rows_v.take(i as int) =~= rows_v);
            assert(all.take(all.len() as int) =~= all);
            assert(sealable_prefix(all, all.len() as int));
        }
        Ok(())
    }

    /// True if `password` is the master password.
    fn hash_password_and_compare(&self, password: &[u8]) -> (same: bool)
        ensures
            same == self.accepts(password@),
    {
        Self::hash_password_and_compare_internal(&self.confirmation_hash, password)
    }
}

/// What `insert` of `data` under `name` with `password` does to a vault
/// and returns.
pub open spec fn insert_done(
    before: DatabaseEncrypted,
    after: DatabaseEncrypted,
    name: Seq<char>,
    data: Seq<u8>,
    password: Seq<u8>,
    r: Result<(), DatabaseError>,
) -> bool {
    &&& after.wf()
    &&& after.check_salt() == before.check_salt()
    &&& after.check_hash() == before.check_hash()
    &&& !before.accepts(password) ==> r == Err::<(), DatabaseError>(DatabaseError::InvalidPassword)
        && after@ == before@
    &&& before.accepts(password) && password.len() > MAX_PASSWORD_LEN ==> (r matches Err(
        DatabaseError::FailedHash(_),
    ) && after@ == before@)
    &&& before.accepts(password) && password.len() <= MAX_PASSWORD_LEN && data.len()
        > crate::cipher::AES_P_MAX ==> (r matches Err(DatabaseError::FailedAes(msg)) && msg@
        == "Failed AES, invalid key"@ && after@ == before@)
    &&& before.accepts(password) && password.len() <= MAX_PASSWORD_LEN && data.len()
        <= crate::cipher::AES_P_MAX && before@.contains_key(name) ==> r == Err::<(), DatabaseError>(
        DatabaseError::AlreadyExists,
    ) && after@ == before@
    &&& before.accepts(password) && password.len() <= MAX_PASSWORD_LEN && data.len()
        <= crate::cipher::AES_P_MAX && !before@.contains_key(name) ==> r is Ok && after@
        == before@.insert(name, after@[name]) && sealed_for(password, data, after@[name])
}

/// What importing the parsed CSV records `rows` with `password` does to a
/// vault and returns.
pub open spec fn csv_import_done(
    before: DatabaseEncrypted,
    after: DatabaseEncrypted,
    rows: Seq<Option<Seq<Seq<char>>>>,
    password: Seq<u8>,
    r: Result<(), DatabaseError>,
) -> bool {
    &&& after.wf()
    &&& after.check_salt() == before.check_salt()
    &&& after.check_hash() == before.check_hash()
    &&& !before.accepts(password) ==> r == Err::<(), DatabaseError>(DatabaseError::InvalidPassword)
        && after@ == before@
    &&& before.accepts(password) && password.len() > MAX_PASSWORD_LEN && csv_pairs(rows).len()
        > 0 ==> (r matches Err(DatabaseError::FailedHash(_)) && after@ == before@)
    &&& before.accepts(password) && (password.len() <= MAX_PASSWORD_LEN || csv_pairs(
        rows,
    ).len() == 0) ==> exists|n: int|
        #[trigger] sealable_prefix(csv_pairs(rows), n) && imported(
            before@,
            after@,
            csv_pairs(rows).take(n),
            password,
        ) && (n == csv_pairs(rows).len() ==> r is Ok) && (n < csv_pairs(
            rows,
        ).len() ==> (r matches Err(DatabaseError::FailedAes(msg)) && msg@ == "Failed AES, invalid key"@))
}

/// What `remove` of `name` with `password` does to a vault and returns.
pub open spec fn remove_done(
    before: DatabaseEncrypted,
    after: DatabaseEncrypted,
    name: Seq<char>,
    password: Seq<u8>,
    r: Result<(), DatabaseError>,
) -> bool {
    &&& after.wf()
    &&& after.check_salt() == before.check_salt()
    &&& after.check_hash() == before.check_hash()
    &&& !before.accepts(password) ==> r == Err::<(), DatabaseError>(DatabaseError::InvalidPassword)
        && after@ == before@
    &&& before.accepts(password) && !before@.contains_key(name) ==> r == Err::<(), DatabaseError>(
        DatabaseError::NotFound,
    ) && after@ == before@
    &&& before.accepts(password) && before@.contains_key(name) ==> r is Ok && after@ == before@.remove(name)
}

/// What `replace` of `name`'s value by `new_data` with `password` does to a
/// vault and returns.
pub open spec fn replace_done(
    before: DatabaseEncrypted,
    after: DatabaseEncrypted,
    name: Seq<char>,
    new_data: Seq<u8>,
    password: Seq<u8>,
    r: Result<(), DatabaseError>,
) -> bool {
    &&& after.wf()
    &&& after.check_salt() == before.check_salt()
    &&& after.check_hash() == before.check_hash()
    &&& !before.accepts(password) ==> r == Err::<(), DatabaseError>(DatabaseError::InvalidPassword)
        && after@ == before@
    &&& before.accepts(password) && password.len() > MAX_PASSWORD_LEN ==> (r matches Err(
        DatabaseError::FailedHash(_),
    ) && after@ == before@)
    &&& before.accepts(password) && password.len() <= MAX_PASSWORD_LEN && new_data.len()
        > crate::cipher::AES_P_MAX ==> (r matches Err(DatabaseError::FailedAes(msg)) && msg@
        == "Failed AES, invalid key"@ && after@ == before@)
    &&& before.accepts(password) && password.len() <= MAX_PASSWORD_LEN && new_data.len()
        <= crate::cipher::AES_P_MAX && !before@.contains_key(name) ==> r == Err::<(), DatabaseError>(
        DatabaseError::NotFound,
    ) && after@ == before@
    &&& before.accepts(password) && password.len() <= MAX_PASSWORD_LEN && new_data.len()
        <= crate::cipher::AES_P_MAX && before@.contains_key(name) ==> r is Ok && after@
        == before@.insert(name, after@[name]) && sealed_for(password, new_data, after@[name])
}

/// What `rename` of `name` to `new_name` with `password` does to a vault
/// and returns.
pub open spec fn rename_done(
    before: DatabaseEncrypted,
    after: DatabaseEncrypted,
    name: Seq<char>,
    new_name: Seq<char>,
    password: Seq<u8>,
    r: Result<(), DatabaseError>,
) -> bool {
    &&& after.wf()
    &&& after.check_salt() == before.check_salt()
    &&& after.check_hash() == before.check_hash()
    &&& !before.accepts(password) ==> r == Err::<(), DatabaseError>(DatabaseError::InvalidPassword)
        && after@ == before@
    &&& before.accepts(password) && !before@.contains_key(name) ==> r == Err::<(), DatabaseError>(
        DatabaseError::NotFound,
    ) && after@ == before@
    &&& before.accepts(password) && before@.contains_key(name) && new_name != name && before@.contains_key(new_name) ==> r == Err::<(), DatabaseError>(DatabaseError::AlreadyExists)
        && after@ == before@.remove(name)
    &&& before.accepts(password) && before@.contains_key(name) && (new_name == name || !before@.contains_key(new_name)) ==> r is Ok && after@ == before@.remove(name).insert(
        new_name,
        before@[name],
    )
}

/// What `get` of `name` with `password` returns from the vault `d`.
pub open spec fn get_done(
    d: DatabaseEncrypted,
    name: Seq<char>,
    password: Seq<u8>,
    r: Result<EncryptionResult, DatabaseError>,
) -> bool {
    &&& match d.read_outcome(name, password) {
        ReadOutcome::InvalidPassword => r == Err::<EncryptionResult, DatabaseError>(
            DatabaseError::InvalidPassword,
        ),
        ReadOutcome::NotFound => r == Err::<EncryptionResult, DatabaseError>(DatabaseError::NotFound),
        ReadOutcome::FailedHash => r matches Err(DatabaseError::FailedHash(_)),
        ReadOutcome::FailedAes => r matches Err(DatabaseError::FailedAes(msg)) && msg@ == "Failed AES, invalid key"@,
        ReadOutcome::Opened(p) => r matches Ok(e) && e@ == p,
    }
}

/// What exporting a vault as CSV text with `password` returns.
pub open spec fn export_done(
    before: DatabaseEncrypted,
    after: DatabaseEncrypted,
    password: Seq<u8>,
    r: Result<Vec<u8>, DatabaseError>,
) -> bool {
    &&& after == before
    &&& !before.accepts(password) ==> r == Err::<Vec<u8>, DatabaseError>(DatabaseError::InvalidPassword)
    &&& before.accepts(password) ==> match export_text(before.keys(), before@, password) {
        Ok(t) => r matches Ok(b) && b@ == t,
        Err(ExportFailure::Hash) => r matches Err(DatabaseError::FailedHash(_)),
        Err(ExportFailure::Aes) => r matches Err(DatabaseError::FailedAes(msg)) && msg@ == "Failed AES, invalid key"@,
        Err(ExportFailure::Csv) => r matches Err(DatabaseError::InvalidCsv(_)),
    }
}

/// What sealing the whole vault `d` with `password` returns.
pub open spec fn serialize_done(
    d: DatabaseEncrypted,
    password: Seq<u8>,
    r: Result<EncryptionResult, DatabaseError>,
) -> bool {
    &&& !d.accepts(password) ==> r == Err::<EncryptionResult, DatabaseError>(DatabaseError::InvalidPassword)
    &&& d.accepts(password) && password.len() > MAX_PASSWORD_LEN ==> (r matches Err(
        DatabaseError::FailedHash(_),
    ))
    &&& d.accepts(password) && password.len() <= MAX_PASSWORD_LEN && d.stored_bytes().len()
        > crate::cipher::AES_P_MAX ==> (r matches Err(DatabaseError::FailedAes(msg)) && msg@
        == "Failed AES, invalid key"@)
    &&& d.accepts(password) && password.len() <= MAX_PASSWORD_LEN && d.stored_bytes().len()
        <= crate::cipher::AES_P_MAX ==> (r matches Ok(e) && sealed_for(password, d.stored_bytes(), e@))
}

/// The operations of an open vault. Each takes the master password and
/// refuses with `InvalidPassword` when it is not the vault's.
pub trait DatabaseInterface: Sized {
    /// The vault's own consistency.
    spec fn well_formed(&self) -> bool;

    fn new_deserialize_encrypted(serialized: &EncryptionResult, password: &[u8]) -> Result<Self, DatabaseError>
        requires
            serialized@.len() >= MIN_SEALED_LEN,
    ;

    fn insert(&mut self, name: &str, data: &[u8], password: &[u8]) -> Result<(), DatabaseError>
        requires
            old(self).well_formed(),
    ;

    fn insert_from_csv(&mut self, csv: &[u8], password: &[u8]) -> Result<(), DatabaseError>
        requires
            old(self).well_formed(),
    ;

    fn export_to_csv(&mut self, password: &[u8]) -> Result<Vec<u8>, DatabaseError>
        requires
            old(self).well_formed(),
    ;

    fn remove(&mut self, name: &str, password: &[u8]) -> Result<(), DatabaseError>
        requires
            old(self).well_formed(),
    ;

    fn replace(&mut self, name: &str, new_data: &[u8], password: &[u8]) -> Result<(), DatabaseError>
        requires
            old(self).well_formed(),
    ;

    fn rename(&mut self, name: &str, new_name: &str, password: &[u8]) -> Result<(), DatabaseError>
        requires
            old(self).well_formed(),
    ;

    fn get(&self, name: &str, password: &[u8]) -> Result<EncryptionResult, DatabaseError>
        requires
            self.well_formed(),
    ;

    fn serialize_encrypted(&self, password: &[u8]) -> Result<EncryptionResult, DatabaseError>
        requires
            self.well_formed(),
    ;
}

impl DatabaseInterface for DatabaseEncrypted {
    open spec fn well_formed(&self) -> bool {
        self.wf()
    }

    /// Opens the sealed vault `serialized` with `password` and loads it.
    fn new_deserialize_encrypted(serialized: &EncryptionResult, password: &[u8]) -> (r: Result<DatabaseEncrypted, DatabaseError>)
        ensures
            match load_outcome(serialized@, password@) {
                LoadOutcome::Loaded(m, salt, hash) => r matches Ok(d) && d.wf() && d@ == m && d.check_salt()
                    == salt && d.check_hash() == hash,
                LoadOutcome::InvalidPassword => r == Err::<Self, DatabaseError>(DatabaseError::InvalidPassword),
                LoadOutcome::FailedDeserialize => r == Err::<Self, DatabaseError>(DatabaseError::FailedDeserialize),
                LoadOutcome::FailedHash => r matches Err(DatabaseError::FailedHash(_)),
                LoadOutcome::FailedAes => r matches Err(DatabaseError::FailedAes(msg)) && msg@ == "Failed AES, invalid key"@,
            },
    {
        let (db, _hash) = Self::new_deserialize_encrypted_internal(serialized, password)?;
        Ok(db)
    }

    /// Seals `data` under `name`, with a key freshly derived from `password`.
    fn insert(&mut self, name: &str, data: &[u8], password: &[u8]) -> (r: Result<(), DatabaseError>)
        ensures
            insert_done(*old(self), *final(self), name@, data@, password@, r),
    {
        if !self.hash_password_and_compare(password) {
            return Err(DatabaseError::InvalidPassword);
        }
        let hash = Self::hash_password_argon2(password)?;
        let data = match crate::encryption::default::encrypt(data, &hash) {
            Ok(data) => data,
            Err(error) => return Err(DatabaseError::from_encryption_error(error)),
        };
        let ghost sealed = data@;
        let _sealed_len = data.as_slice().len();
        self.db.insert(name, data)?;
        proof {
            assert(sealed_values(self.db@) =~= sealed_values(old(self).db@).insert(name@, sealed));
        }
        Ok(())
    }

    /// Imports the key–value pairs of the CSV text `csv`; see `insert_records`.
    fn insert_from_csv(&mut self, csv: &[u8], password: &[u8]) -> (r: Result<(), DatabaseError>)
        ensures
            csv_import_done(*old(self), *final(self), spec_csv_records(csv@), password@, r),
            csv_reads_back(csv@),
    {
        let rows = csv_records(csv);
        self.insert_records(&rows, password)
    }

    /// The CSV text of the whole vault: a header row, then each entry's name
    /// and opened value, in name order.
    fn export_to_csv(&mut self, password: &[u8]) -> (r: Result<Vec<u8>, DatabaseError>)
        ensures
            export_done(*old(self), *final(self), password@, r),
    {
        if !self.hash_password_and_compare(password) {
            return Err(DatabaseError::InvalidPassword);
        }
        proof {
            self.lemma_wf();
        }
        let mut header: Vec<Vec<u8>> = Vec::new();
        header.push(vstd::slice::slice_to_vec("Username".as_bytes()));
        header.push(vstd::slice::slice_to_vec("Password".as_bytes()));
        assert(header@[0].deep_view() =~= name_key("Username"@));
        assert(header@[1].deep_view() =~= name_key("Password"@));
        assert(header.deep_view() =~= csv_header());
        proof {
            assert(old(self).keys().take(0) =~= Seq::<Seq<char>>::empty());
        }
        let mut out = match csv_record(&header) {
            Ok(b) => b,
            Err(msg) => {
                proof {
                    lemma_export_text_stops(old(self).keys(), old(self)@, password@, 0);
                }
                return Err(DatabaseError::InvalidCsv(msg));
            },
        };
        let names = self.db.list()?;
        let ghost keys = self.keys();
        let ghost m = self@;
        proof {
            assert(keys.take(0) =~= Seq::<Seq<char>>::empty());
        }
        let mut i: usize = 0;
        while i < names.len()
            invariant
                self.wf(),
                keys == self.keys(),
                m == self@,
                *self == *old(self),
                old(self).accepts(password@),
                crate::db_base::views(names@) == keys,
                i <= names@.len(),
                export_text(keys.take(i as int), m, password@) == Ok::<Seq<u8>, ExportFailure>(out@),
                forall|k: Seq<char>| #[trigger] m.contains_key(k) <==> keys.contains(k),
                forall|k: Seq<char>| #[trigger] m.contains_key(k) ==> m[k].len() <= usize::MAX,
            decreases names@.len() - i,
        {
            let name = names[i].as_str();
            proof {
                assert(keys[i as int] == names@[i as int]@);
                assert(keys.contains(keys[i as int]));
                assert(keys.take(i + 1).drop_last() =~= keys.take(i as int));
                assert(sealed_values(self.db@).contains_key(name@));
            }
            let ciphertext = self.db.get(name)?;
            if ciphertext.as_slice().len() < MIN_SEALED_LEN {
                proof {
                    lemma_export_text_stops(keys, m, password@, i + 1);
                }
                return Err(DatabaseError::from_encryption_error(EncryptionError::new("Failed AES, invalid key")));
            }
            let hash = match Self::hash_password_argon2_with_salt(password, ciphertext.get_salt_slice()) {
                Ok(h) => h,
                Err(e) => {
                    proof {
                        lemma_export_text_stops(keys, m, password@, i + 1);
                    }
                    return Err(e);
                },
            };
            let opened = match crate::encryption::default::decrypt(ciphertext, &hash) {
                Ok(result) => result,
                Err(error) => {
                    proof {
                        lemma_export_text_stops(keys, m, password@, i + 1);
                    }
                    return Err(DatabaseError::from_encryption_error(error));
                },
            };
            let mut row: Vec<Vec<u8>> = Vec::new();
            row.push(vstd::slice::slice_to_vec(name.as_bytes()));
            row.push(vstd::slice::slice_to_vec(opened.as_slice()));
            assert(row@[0].deep_view() =~= name_key(name@));
            assert(row@[1].deep_view() =~= opened@);
            assert(row.deep_view() =~= seq![name_key(name@), opened@]);
            assert(keys.take(i + 1).last() == keys[i as int]);
            let bytes = match csv_record(&row) {
                Ok(b) => b,
                Err(msg) => {
                    proof {
                        lemma_export_text_stops(keys, m, password@, i + 1);
                    }
                    return Err(DatabaseError::InvalidCsv(msg));
                },
            };
            let ghost prev = out@;
            out.extend_from_slice(bytes.as_slice());
            proof {
                assert(ciphertext@ == m[name@]);
                assert(open_with(password@, m[name@]) == Some(opened@));
                assert(export_row(m, password@, name@) == Ok::<Seq<u8>, ExportFailure>(bytes@));
                assert(out@ =~= prev + bytes@);
            }
            i = i + 1;
        }
        proof {
            assert(keys.take(i as int) =~= keys);
        }
        Ok(out)
    }

    /// Removes the entry `name`.
    fn remove(&mut self, name: &str, password: &[u8]) -> (r: Result<(), DatabaseError>)
        ensures
            remove_done(*old(self), *final(self), name@, password@, r),
    {
        if !self.hash_password_and_compare(password) {
            return Err(DatabaseError::InvalidPassword);
        }
        self.db.remove(name)?;
        proof {
            assert(sealed_values(self.db@) =~= sealed_values(old(self).db@).remove(name@));
        }
        Ok(())
    }

    /// Seals `new_data` in place of the entry `name`'s value, with a key
    /// freshly derived from `password`.
    fn replace(&mut self, name: &str, new_data: &[u8], password: &[u8]) -> (r: Result<(), DatabaseError>)
        ensures
            replace_done(*old(self), *final(self), name@, new_data@, password@, r),
    {
        if !self.hash_password_and_compare(password) {
            return Err(DatabaseError::InvalidPassword);
        }
        let hash = Self::hash_password_argon2(password)?;
        let data = match crate::encryption::default::encrypt(new_data, &hash) {
            Ok(data) => data,
            Err(error) => return Err(DatabaseError::from_encryption_error(error)),
        };
        let ghost sealed = data@;
        let _sealed_len = data.as_slice().len();
        self.db.replace(name, data)?;
        proof {
            assert(sealed_values(self.db@) =~= sealed_values(old(self).db@).insert(name@, sealed));
        }
        Ok(())
    }

    /// Moves the entry `name` to `new_name`; when `new_name` names another
    /// entry, the entry `name` is dropped and `AlreadyExists` reported.
    fn rename(&mut self, name: &str, new_name: &str, password: &[u8]) -> (r: Result<(), DatabaseError>)
        ensures
            rename_done(*old(self), *final(self), name@, new_name@, password@, r),
    {
        if !self.hash_password_and_compare(password) {
            return Err(DatabaseError::InvalidPassword);
        }
        let r = self.db.rename(name, new_name);
        proof {
            let m0 = old(self).db@;
            if m0.contains_key(name@) {
                assert(sealed_values(m0.remove(name@)) =~= sealed_values(m0).remove(name@));
                assert(sealed_values(m0.remove(name@).insert(new_name@, m0[name@])) =~= sealed_values(m0).remove(
                    name@,
                ).insert(new_name@, sealed_values(m0)[name@]));
            }
        }
        r?;
        Ok(())
    }

    /// Opens the entry `name` with `password`.
    fn get(&self, name: &str, password: &[u8]) -> (r: Result<EncryptionResult, DatabaseError>)
        ensures
            get_done(*self, name@, password@, r),
    {
        if !self.hash_password_and_compare(password) {
            return Err(DatabaseError::InvalidPassword);
        }
        let ciphertext = self.db.get(name)?;
        proof {
            assert(sealed_values(self.db@).contains_key(name@));
        }
        if ciphertext.as_slice().len() < MIN_SEALED_LEN {
            return Err(DatabaseError::from_encryption_error(EncryptionError::new("Failed AES, invalid key")));
        }
        let hash = Self::hash_password_argon2_with_salt(password, ciphertext.get_salt_slice())?;
        let result = match crate::encryption::default::decrypt(ciphertext, &hash) {
            Ok(result) => result,
            Err(error) => return Err(DatabaseError::from_encryption_error(error)),
        };
        Ok(result)
    }

    /// Seals the whole vault with a key freshly derived from `password`.
    fn serialize_encrypted(&self, password: &[u8]) -> (r: Result<EncryptionResult, DatabaseError>)
        ensures
            serialize_done(*self, password@, r),
    {
        let data = self.serialize()?;
        if !self.hash_password_and_compare(password) {
            return Err(DatabaseError::InvalidPassword);
        }
        let hash = Self::hash_password_argon2(password)?;
        match crate::encryption::default::encrypt(data.as_slice(), &hash) {
            Ok(ciphertext) => Ok(ciphertext),
            Err(error) => Err(DatabaseError::from_encryption_error(error)),
        }
    }
}

/// What is read back is what was written: once `insert` has sealed `data`
/// under `name` with the master password, reading `name` with that password
/// opens to `data`, and every other entry reads as before.
pub proof fn lemma_get_after_insert(
    before: DatabaseEncrypted,
    after: DatabaseEncrypted,
    name: Seq<char>,
    data: Seq<u8>,
    password: Seq<u8>,
)
    requires
        before.accepts(password),
        password.len() <= MAX_PASSWORD_LEN,
        after.check_salt() == before.check_salt(),
        after.check_hash() == before.check_hash(),
        after@ == before@.insert(name, after@[name]),
        sealed_for(password, data, after@[name]),
    ensures
        after.read_outcome(name, password) == ReadOutcome::Opened(data),
        forall|other: Seq<char>| other != name ==> #[trigger] after.read_outcome(other, password)
            == before.read_outcome(other, password),
{
    assert(after@.contains_key(name));
    assert forall|other: Seq<char>| other != name implies #[trigger] after.read_outcome(other, password)
        == before.read_outcome(other, password) by {
        assert(after@.contains_key(other) == before@.contains_key(other));
        if before@.contains_key(other) {
            assert(after@[other] == before@[other]);
        }
    }
}

/// A vault sealed with its master password loads back, with that password,
/// as the same entries under the same master password.
pub proof fn lemma_load_after_save(d: DatabaseEncrypted, password: Seq<u8>, sealed: Seq<u8>)
    requires
        d.wf(),
        d.accepts(password),
        password.len() <= MAX_PASSWORD_LEN,
        sealed_for(password, d.stored_bytes(), sealed),
    ensures
        sealed.len() >= MIN_SEALED_LEN,
        load_outcome(sealed, password) == LoadOutcome::Loaded(d@, d.check_salt(), d.check_hash()),
{
    d.lemma_wf();
    let plain = d.stored_bytes();
    let body = encode_database(d.keys(), d@);
    assert(open_with(password, sealed) == Some(plain));
    let n = plain.len();
    assert(plain.subrange(n - 32, n as int) =~= d.check_salt());
    assert(plain.subrange(n - 64, n - 32) =~= d.check_hash());
    assert(plain.subrange(0, n - 64) =~= body);
    assert forall|i: int| 0 <= i < d.keys().len() implies (#[trigger] d@[d.keys()[i]]).len() <= u64::MAX by {
        assert(d.keys().contains(d.keys()[i]));
        assert(d@.contains_key(d.keys()[i]));
    }
    crate::codec::lemma_database_roundtrip(d.keys(), d@);
}

} // verus!
