use vstd::prelude::*;

use vstd::bytes::{
    lemma_auto_spec_u64_to_from_le_bytes, spec_u64_from_le_bytes, spec_u64_to_le_bytes,
    u64_from_le_bytes, u64_to_le_bytes,
};
use vstd::slice::{slice_subrange, slice_to_vec};
use vstd::utf8::{decode_utf8, encode_utf8, encode_utf8_decode_utf8, encode_utf8_valid_utf8, valid_utf8};

use crate::error::Error;
use crate::store::{unique_keys, Entry, EntryView, PasswordStore, StoreRows};

verus! {

// The canonical byte encoding of an entry store.
//
// The plaintext of a container is this encoding; the contract of the layer
// is lossless round-trip fidelity, stated in `lemma_store_round_trip`.
//
//   [0..8)  number of rows, as a little-endian 64-bit count
//   then, per row, three strings in order: account, username, password,
//   each as a little-endian 64-bit byte length followed by its UTF-8 bytes.

/// A character sequence whose UTF-8 encoding fits a 64-bit length field.
/// Every in-memory `String` satisfies this.
pub open spec fn str_encodable(s: Seq<char>) -> bool {
    encode_utf8(s).len() < 0x1_0000_0000_0000_0000
}

/// A row whose three fields are each encodable.
pub open spec fn row_encodable(row: (Seq<char>, EntryView)) -> bool {
    str_encodable(row.0) && str_encodable(row.1.username) && str_encodable(row.1.password)
}

/// Rows that the byte format can represent exactly.
pub open spec fn rows_encodable(rows: StoreRows) -> bool {
    rows.len() < 0x1_0000_0000_0000_0000 && forall|i: int|
        0 <= i < rows.len() ==> row_encodable(#[trigger] rows[i])
}

/// The encoding of one string: length prefix, then UTF-8 bytes.
pub open spec fn ser_str(s: Seq<char>) -> Seq<u8> {
    spec_u64_to_le_bytes(encode_utf8(s).len() as u64) + encode_utf8(s)
}

/// The encoding of one row: its three strings in order.
pub open spec fn ser_row(row: (Seq<char>, EntryView)) -> Seq<u8> {
    ser_str(row.0) + ser_str(row.1.username) + ser_str(row.1.password)
}

/// The concatenated encodings of all rows.
pub open spec fn ser_rows(rows: StoreRows) -> Seq<u8>
    decreases rows.len(),
{
    if rows.len() == 0 {
        Seq::empty()
    } else {
        ser_row(rows[0]) + ser_rows(rows.skip(1))
    }
}

/// The encoding of a whole store: row count, then the rows.
pub open spec fn ser_store(rows: StoreRows) -> Seq<u8> {
    spec_u64_to_le_bytes(rows.len() as u64) + ser_rows(rows)
}

/// Reads one string off the front of `b`: length prefix, UTF-8 content;
/// yields the decoded characters and the remaining bytes.
pub open spec fn parse_str(b: Seq<u8>) -> Option<(Seq<char>, Seq<u8>)> {
    if b.len() < 8 {
        None
    } else {
        let l = spec_u64_from_le_bytes(b.take(8)) as int;
        if b.len() - 8 < l {
            None
        } else {
            let content = b.subrange(8, 8 + l);
            if valid_utf8(content) {
                Some((decode_utf8(content), b.skip(8 + l)))
            } else {
                None
            }
        }
    }
}

/// Reads exactly `n` rows, requiring that they consume all of `b`.
pub open spec fn parse_rows(b: Seq<u8>, n: nat) -> Option<StoreRows>
    decreases n,
{
    if n == 0 {
        if b.len() == 0 {
            Some(Seq::empty())
        } else {
            None
        }
    } else {
        match parse_str(b) {
            None => None,
            Some((account, r1)) => match parse_str(r1) {
                None => None,
                Some((username, r2)) => match parse_str(r2) {
                    None => None,
                    Some((password, r3)) => match parse_rows(r3, (n - 1) as nat) {
                        None => None,
                        Some(rest) => Some(
                            seq![(account, (EntryView { username, password }))] + rest,
                        ),
                    },
                },
            },
        }
    }
}

/// The decoding of a whole store, or nothing if the bytes are malformed.
pub open spec fn parse_store(b: Seq<u8>) -> Option<StoreRows> {
    if b.len() < 8 {
        None
    } else {
        parse_rows(b.skip(8), spec_u64_from_le_bytes(b.take(8)) as nat)
    }
}

proof fn lemma_parse_ser_str(s: Seq<char>, rest: Seq<u8>)
    requires
        str_encodable(s),
    ensures
        parse_str(ser_str(s) + rest) == Some((s, rest)),
{
    lemma_auto_spec_u64_to_from_le_bytes();
    let eb = encode_utf8(s);
    let b = ser_str(s) + rest;
    assert(b.take(8) =~= spec_u64_to_le_bytes(eb.len() as u64));
    assert(spec_u64_from_le_bytes(b.take(8)) == eb.len());
    assert(b.subrange(8, 8 + eb.len() as int) =~= eb);
    encode_utf8_valid_utf8(s);
    encode_utf8_decode_utf8(s);
    assert(b.skip(8 + eb.len() as int) =~= rest);
}

proof fn lemma_parse_ser_rows(rows: StoreRows)
    requires
        forall|i: int| 0 <= i < rows.len() ==> row_encodable(#[trigger] rows[i]),
    ensures
        parse_rows(ser_rows(rows), rows.len() as nat) == Some(rows),
    decreases rows.len(),
{
    if rows.len() == 0 {
        assert(ser_rows(rows).len() == 0);
    } else {
        let row = rows[0];
        let rest = rows.skip(1);
        let tail = ser_rows(rest);
        let b = ser_rows(rows);
        assert(b == ser_row(row) + tail);
        assert(b =~= ser_str(row.0) + (ser_str(row.1.username) + (ser_str(row.1.password) + tail)));
        lemma_parse_ser_str(row.0, ser_str(row.1.username) + (ser_str(row.1.password) + tail));
        lemma_parse_ser_str(row.1.username, ser_str(row.1.password) + tail);
        lemma_parse_ser_str(row.1.password, tail);
        assert(forall|i: int| 0 <= i < rest.len() ==> row_encodable(#[trigger] rest[i])) by {
            assert(forall|i: int| 0 <= i < rest.len() ==> rest[i] == rows[i + 1]);
        }
        lemma_parse_ser_rows(rest);
        assert(row.1 == (EntryView { username: row.1.username, password: row.1.password }));
        assert(seq![(row.0, row.1)] + rest =~= rows);
    }
}

/// Round-trip fidelity of the store encoding: decoding the encoding of any
/// representable rows yields exactly those rows.
pub proof fn lemma_store_round_trip(rows: StoreRows)
    requires
        rows_encodable(rows),
    ensures
        parse_store(ser_store(rows)) == Some(rows),
{
    lemma_auto_spec_u64_to_from_le_bytes();
    let b = ser_store(rows);
    assert(b.take(8) =~= spec_u64_to_le_bytes(rows.len() as u64));
    assert(b.skip(8) =~= ser_rows(rows));
    lemma_parse_ser_rows(rows);
}

/// Appending a row extends the encoding by that row's bytes.
proof fn lemma_ser_rows_snoc(rows: StoreRows)
    requires
        rows.len() > 0,
    ensures
        ser_rows(rows) == ser_rows(rows.drop_last()) + ser_row(rows.last()),
    decreases rows.len(),
{
    if rows.len() == 1 {
        assert(rows.skip(1).len() == 0);
        assert(rows.drop_last().len() == 0);
        assert(ser_rows(rows.skip(1)) == Seq::<u8>::empty());
        assert(ser_rows(rows.drop_last()) == Seq::<u8>::empty());
        assert(ser_rows(rows) == ser_row(rows[0]) + ser_rows(rows.skip(1)));
        assert(rows.last() == rows[0]);
        assert(ser_rows(rows) =~= ser_rows(rows.drop_last()) + ser_row(rows.last()));
    } else {
        let rest = rows.skip(1);
        lemma_ser_rows_snoc(rest);
        assert(rest.drop_last() =~= rows.drop_last().skip(1));
        assert(rest.last() == rows.last());
        assert(rows.drop_last()[0] == rows[0]);
        assert(ser_rows(rows.drop_last()) == ser_row(rows[0]) + ser_rows(rows.drop_last().skip(1)));
        assert(ser_rows(rows) =~= ser_rows(rows.drop_last()) + ser_row(rows.last()));
    }
}

/// Appends `ser_str(s@)` to `out`.
fn write_string(out: &mut Vec<u8>, s: &str)
    ensures
        final(out)@ == old(out)@ + ser_str(s@),
        str_encodable(s@),
{
    let b = s.as_bytes();
    let blen = b.len();
    let lenb = u64_to_le_bytes(blen as u64);
    out.extend_from_slice(lenb.as_slice());
    out.extend_from_slice(b);
    proof {
        assert(out@ =~= old(out)@ + ser_str(s@));
    }
}

/// Encodes a store into the canonical byte format.
pub fn serialize_store(s: &PasswordStore) -> (r: Vec<u8>)
    ensures
        rows_encodable(s.rows()),
        r@ == ser_store(s.rows()),
{
    let pairs = s.entries();
    let n = pairs.len();
    let mut out = u64_to_le_bytes(n as u64);
    let mut i: usize = 0;
    while i < n
        invariant
            n == pairs@.len(),
            n == s.rows().len(),
            0 <= i <= n,
            forall|j: int| 0 <= j < n ==> ((#[trigger] pairs@[j]).0@, pairs@[j].1@) == s.rows()[j],
            forall|j: int| 0 <= j < i ==> row_encodable(#[trigger] s.rows()[j]),
            out@ == spec_u64_to_le_bytes(n as u64) + ser_rows(s.rows().take(i as int)),
        decreases n - i,
    {
        let ghost prefix = s.rows().take(i as int);
        write_string(&mut out, pairs[i].0.as_str());
        write_string(&mut out, pairs[i].1.username.as_str());
        write_string(&mut out, pairs[i].1.password.as_str());
        proof {
            let row = s.rows()[i as int];
            assert(row.1 == (EntryView { username: row.1.username, password: row.1.password }));
            let next = s.rows().take(i + 1);
            assert(next.drop_last() =~= prefix);
            assert(next.last() == row);
            lemma_ser_rows_snoc(next);
            assert(out@ =~= spec_u64_to_le_bytes(n as u64) + ser_rows(next));
        }
        i += 1;
    }
    proof {
        assert(s.rows().take(n as int) =~= s.rows());
    }
    out
}

/// Relies on `String::from_utf8` of std: it succeeds exactly on valid UTF-8
/// input and returns its decoding.
#[verifier::external_body]
fn string_from_utf8(v: Vec<u8>) -> (r: Option<String>)
    ensures
        r is Some <==> valid_utf8(v@),
        r matches Some(s) ==> s@ == decode_utf8(v@),
{
    String::from_utf8(v).ok()
}

/// Reads one length-prefixed string starting at `pos`; on success returns it
/// with the position just past its bytes.
fn read_string(bytes: &[u8], pos: usize) -> (r: Result<(String, usize), Error>)
    requires
        pos <= bytes@.len(),
    ensures
        match r {
            Ok(p) => pos < p.1 <= bytes@.len() && parse_str(bytes@.skip(pos as int))
                == Some((p.0@, bytes@.skip(p.1 as int))),
            Err(e) => e == Error::MalformedData && parse_str(bytes@.skip(pos as int)) is None,
        },
{
    let blen = bytes.len();
    let ghost b = bytes@.skip(pos as int);
    if blen - pos < 8 {
        return Err(Error::MalformedData);
    }
    let l64 = u64_from_le_bytes(slice_subrange(bytes, pos, pos + 8));
    proof {
        assert(b.take(8) =~= bytes@.subrange(pos as int, pos as int + 8));
    }
    let avail: usize = blen - (pos + 8);
    if (avail as u64) < l64 {
        return Err(Error::MalformedData);
    }
    let l: usize = l64 as usize;
    let content = slice_subrange(bytes, pos + 8, pos + 8 + l);
    proof {
        assert(content@ =~= b.subrange(8, 8 + l64 as int));
    }
    let owned = slice_to_vec(content);
    match string_from_utf8(owned) {
        Some(s) => {
            let new_pos = pos + 8 + l;
            proof {
                assert(bytes@.skip(new_pos as int) =~= b.skip(8 + l64 as int));
            }
            Ok((s, new_pos))
        },
        None => Err(Error::MalformedData),
    }
}

/// Decodes a store from the canonical byte format; bytes that are not the
/// encoding of a store with unique account names are rejected as
/// `MalformedData`.
pub fn parse_store_bytes(bytes: &[u8]) -> (r: Result<PasswordStore, Error>)
    ensures
        match r {
            Ok(s) => s.wf() && parse_store(bytes@) == Some(s.rows()),
            Err(e) => e == Error::MalformedData && match parse_store(bytes@) {
                Some(rows) => !unique_keys(rows),
                None => true,
            },
        },
{
    let blen = bytes.len();
    if blen < 8 {
        return Err(Error::MalformedData);
    }
    let count = u64_from_le_bytes(slice_subrange(bytes, 0, 8));
    proof {
        assert(bytes@.take(8) =~= bytes@.subrange(0, 8));
    }
    let ghost goal = parse_store(bytes@);
    let mut store = PasswordStore::new();
    let mut pos: usize = 8;
    let mut k: u64 = 0;
    while k < count
        invariant
            blen == bytes@.len(),
            8 <= pos <= blen,
            k <= count,
            store.wf(),
            goal == parse_store(bytes@),
            goal == (match parse_rows(bytes@.skip(pos as int), (count - k) as nat) {
                Some(tail) => Some(store.rows() + tail),
                None => None::<StoreRows>,
            }),
        decreases count - k,
    {
        let ghost rem0 = bytes@.skip(pos as int);
        let ghost n_left = (count - k) as nat;
        let (account, p1) = match read_string(bytes, pos) {
            Ok(p) => p,
            Err(e) => {
                return Err(e);
            },
        };
        let (username, p2) = match read_string(bytes, p1) {
            Ok(p) => p,
            Err(e) => {
                return Err(e);
            },
        };
        let (password, p3) = match read_string(bytes, p2) {
            Ok(p) => p,
            Err(e) => {
                return Err(e);
            },
        };
        let ghost row = (account@, (EntryView { username: username@, password: password@ }));
        let ghost pre_rows = store.rows();
        proof {
            assert(parse_rows(rem0, n_left) == (match parse_rows(bytes@.skip(p3 as int), (n_left - 1) as nat) {
                Some(rest) => Some(seq![row] + rest),
                None => None::<StoreRows>,
            }));
        }
        match store.add_entry(account.as_str(), Entry { username, password }) {
            Ok(()) => {
                proof {
                    assert(store.rows() == pre_rows.push(row));
                    if parse_rows(bytes@.skip(p3 as int), (n_left - 1) as nat) is Some {
                        let rest = parse_rows(bytes@.skip(p3 as int), (n_left - 1) as nat).unwrap();
                        assert(pre_rows + (seq![row] + rest) =~= store.rows() + rest);
                    }
                }
            },
            Err(_) => {
                proof {
                    if parse_rows(bytes@.skip(p3 as int), (n_left - 1) as nat) is Some {
                        let rest = parse_rows(bytes@.skip(p3 as int), (n_left - 1) as nat).unwrap();
                        let full = pre_rows + (seq![row] + rest);
                        assert(goal == Some(full));
                        crate::store::lemma_map_of_contains(pre_rows, account@);
                        let j = choose|j: int| 0 <= j < pre_rows.len() && (#[trigger] pre_rows[j]).0 == account@;
                        assert(full[j].0 == account@);
                        assert(full[pre_rows.len() as int].0 == account@);
                        assert(!unique_keys(full));
                    }
                }
                return Err(Error::MalformedData);
            },
        }
        pos = p3;
        k = k + 1;
    }
    if pos < blen {
        proof {
            assert(bytes@.skip(pos as int).len() > 0);
        }
        return Err(Error::MalformedData);
    }
    proof {
        assert(bytes@.skip(pos as int).len() == 0);
        assert(store.rows() + Seq::<(Seq<char>, EntryView)>::empty() =~= store.rows());
    }
    Ok(store)
}

} // verus!
