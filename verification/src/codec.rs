//! How a row is written to the `ROW_SIZE` bytes of its slot and read back.
//!
//! The id comes first, in four bytes with the lowest byte first, whatever
//! the machine; then the user name and the e-mail address, each in its field.

use crate::layout::{
    EMAIL_OFFSET, EMAIL_SIZE, ID_OFFSET, ID_SIZE, ROW_SIZE, USERNAME_OFFSET, USERNAME_SIZE,
};
use crate::row::{
    lemma_pad_strip, lemma_strip_pad, lemma_strip_zeros, pad_zeros, strip_zeros, Row, RowData,
};
use vstd::prelude::*;

verus! {

/// The four bytes that hold `id`, lowest byte first.
pub open spec fn id_bytes(id: u32) -> Seq<u8> {
    seq![
        (id % 256) as u8,
        (id / 256 % 256) as u8,
        (id / 65536 % 256) as u8,
        (id / 16777216) as u8,
    ]
}

/// The id that four bytes hold, lowest byte first.
pub open spec fn id_of(bytes: Seq<u8>) -> u32 {
    (bytes[0] + bytes[1] * 256 + bytes[2] * 65536 + bytes[3] * 16777216) as u32
}

/// The bytes that hold `row`.
pub open spec fn encode(row: RowData) -> Seq<u8> {
    id_bytes(row.id) + pad_zeros(row.username, USERNAME_SIZE as nat) + pad_zeros(
        row.email,
        EMAIL_SIZE as nat,
    )
}

/// The row that `bytes` hold.
pub open spec fn decode(bytes: Seq<u8>) -> RowData {
    RowData {
        id: id_of(bytes.subrange(ID_OFFSET as int, ID_OFFSET + ID_SIZE)),
        username: strip_zeros(
            bytes.subrange(USERNAME_OFFSET as int, USERNAME_OFFSET + USERNAME_SIZE),
        ),
        email: strip_zeros(bytes.subrange(EMAIL_OFFSET as int, EMAIL_OFFSET + EMAIL_SIZE)),
    }
}

/// An id that is written in four bytes and read back is the id.
pub proof fn lemma_id_of_id_bytes(id: u32)
    ensures
        id_bytes(id).len() == ID_SIZE,
        id_of(id_bytes(id)) == id,
{
}

/// Four bytes that are read as an id and written back are the four bytes.
pub proof fn lemma_id_bytes_of_id(bytes: Seq<u8>)
    requires
        bytes.len() == ID_SIZE,
    ensures
        id_bytes(id_of(bytes)) == bytes,
{
    let b0 = bytes[0] as int;
    let b1 = bytes[1] as int;
    let b2 = bytes[2] as int;
    let b3 = bytes[3] as int;
    let id = b0 + b1 * 256 + b2 * 65536 + b3 * 16777216;
    assert(id_of(bytes) == id);
    assert(id % 256 == b0);
    assert(id / 256 == b1 + b2 * 256 + b3 * 65536);
    assert(id / 65536 == b2 + b3 * 256);
    assert(id / 16777216 == b3);
    assert(id_bytes(id_of(bytes)) =~= bytes);
}

/// The row of an id and two texts that fit their fields, written and read
/// back, is that row.
pub proof fn lemma_round_trip(id: u32, username: Seq<u8>, email: Seq<u8>)
    requires
        username.len() <= USERNAME_SIZE,
        email.len() <= EMAIL_SIZE,
    ensures
        encode(RowData::of(id, username, email)).len() == ROW_SIZE,
        decode(encode(RowData::of(id, username, email))) == RowData::of(id, username, email),
{
    lemma_strip_zeros(username);
    lemma_strip_zeros(email);
    lemma_decode_encode(RowData::of(id, username, email));
}

/// What a row can say, written and read back, is what was written.
pub proof fn lemma_decode_encode(row: RowData)
    requires
        row.valid(),
    ensures
        encode(row).len() == ROW_SIZE,
        decode(encode(row)) == row,
{
    let bytes = encode(row);
    lemma_id_of_id_bytes(row.id);
    assert(bytes.subrange(ID_OFFSET as int, ID_OFFSET + ID_SIZE) =~= id_bytes(row.id));
    assert(bytes.subrange(USERNAME_OFFSET as int, USERNAME_OFFSET + USERNAME_SIZE) =~= pad_zeros(
        row.username,
        USERNAME_SIZE as nat,
    ));
    assert(bytes.subrange(EMAIL_OFFSET as int, EMAIL_OFFSET + EMAIL_SIZE) =~= pad_zeros(
        row.email,
        EMAIL_SIZE as nat,
    ));
    lemma_strip_pad(row.username, USERNAME_SIZE as nat);
    lemma_strip_pad(row.email, EMAIL_SIZE as nat);
}

/// The bytes of a slot that are read and written back are the bytes that
/// were read.
pub proof fn lemma_encode_decode(bytes: Seq<u8>)
    requires
        bytes.len() == ROW_SIZE,
    ensures
        decode(bytes).valid(),
        encode(decode(bytes)) == bytes,
{
    let id_part = bytes.subrange(ID_OFFSET as int, ID_OFFSET + ID_SIZE);
    let username_part = bytes.subrange(USERNAME_OFFSET as int, USERNAME_OFFSET + USERNAME_SIZE);
    let email_part = bytes.subrange(EMAIL_OFFSET as int, EMAIL_OFFSET + EMAIL_SIZE);
    lemma_id_bytes_of_id(id_part);
    lemma_pad_strip(username_part);
    lemma_pad_strip(email_part);
    lemma_strip_zeros(username_part);
    lemma_strip_zeros(email_part);
    assert(encode(decode(bytes)) =~= bytes);
}

/// Writes `row` to the slot `destination`.
pub fn serialize_row(row: &Row, destination: &mut [u8])
    requires
        old(destination)@.len() == ROW_SIZE,
    ensures
        final(destination)@ == encode(row@),
        final(destination)@ == id_bytes(row.id) + row.username@ + row.email@,
{
    let id = row.id;
    destination[ID_OFFSET] = (id % 256) as u8;
    destination[ID_OFFSET + 1] = (id / 256 % 256) as u8;
    destination[ID_OFFSET + 2] = (id / 65536 % 256) as u8;
    destination[ID_OFFSET + 3] = (id / 16777216) as u8;
    let mut i: usize = 0;
    while i < USERNAME_SIZE
        invariant
            i <= USERNAME_SIZE,
            destination@.len() == ROW_SIZE,
            destination@.subrange(0, USERNAME_OFFSET as int) == id_bytes(row.id),
            destination@.subrange(USERNAME_OFFSET as int, USERNAME_OFFSET + i)
                == row.username@.take(i as int),
        decreases USERNAME_SIZE - i,
    {
        let ghost before = destination@;
        destination[USERNAME_OFFSET + i] = row.username[i];
        i += 1;
        proof {
            assert(destination@.subrange(0, USERNAME_OFFSET as int) =~= before.subrange(
                0,
                USERNAME_OFFSET as int,
            ));
            assert(destination@.subrange(USERNAME_OFFSET as int, USERNAME_OFFSET + i)
                =~= before.subrange(USERNAME_OFFSET as int, USERNAME_OFFSET + i - 1).push(
                row.username@[i - 1],
            ));
            assert(row.username@.take(i as int) =~= row.username@.take(i - 1).push(
                row.username@[i - 1],
            ));
        }
    }
    let mut j: usize = 0;
    while j < EMAIL_SIZE
        invariant
            j <= EMAIL_SIZE,
            destination@.len() == ROW_SIZE,
            destination@.subrange(0, USERNAME_OFFSET as int) == id_bytes(row.id),
            destination@.subrange(USERNAME_OFFSET as int, EMAIL_OFFSET as int) == row.username@,
            destination@.subrange(EMAIL_OFFSET as int, EMAIL_OFFSET + j) == row.email@.take(
                j as int,
            ),
        decreases EMAIL_SIZE - j,
    {
        let ghost before = destination@;
        destination[EMAIL_OFFSET + j] = row.email[j];
        j += 1;
        proof {
            assert(destination@.subrange(0, USERNAME_OFFSET as int) =~= before.subrange(
                0,
                USERNAME_OFFSET as int,
            ));
            assert(destination@.subrange(USERNAME_OFFSET as int, EMAIL_OFFSET as int)
                =~= before.subrange(USERNAME_OFFSET as int, EMAIL_OFFSET as int));
            assert(destination@.subrange(EMAIL_OFFSET as int, EMAIL_OFFSET + j)
                =~= before.subrange(EMAIL_OFFSET as int, EMAIL_OFFSET + j - 1).push(
                row.email@[j - 1],
            ));
            assert(row.email@.take(j as int) =~= row.email@.take(j - 1).push(row.email@[j - 1]));
        }
    }
    proof {
        assert(row.username@.take(USERNAME_SIZE as int) =~= row.username@);
        assert(row.email@.take(EMAIL_SIZE as int) =~= row.email@);
        assert(destination@ =~= destination@.subrange(0, USERNAME_OFFSET as int)
            + destination@.subrange(USERNAME_OFFSET as int, EMAIL_OFFSET as int)
            + destination@.subrange(EMAIL_OFFSET as int, ROW_SIZE as int));
        lemma_pad_strip(row.username@);
        lemma_pad_strip(row.email@);
    }
}

/// Reads the row that the slot `source` holds.
pub fn deserialize_row(source: &[u8]) -> (row: Row)
    requires
        source@.len() == ROW_SIZE,
    ensures
        row@ == decode(source@),
        id_bytes(row.id) + row.username@ + row.email@ == source@,
{
    let id: u32 = source[ID_OFFSET] as u32 + source[ID_OFFSET + 1] as u32 * 256 + source[ID_OFFSET
        + 2] as u32 * 65536 + source[ID_OFFSET + 3] as u32 * 16777216;
    let mut username = [0u8; USERNAME_SIZE];
    let mut i: usize = 0;
    while i < USERNAME_SIZE
        invariant
            i <= USERNAME_SIZE,
            source@.len() == ROW_SIZE,
            username@.take(i as int) == source@.subrange(
                USERNAME_OFFSET as int,
                USERNAME_OFFSET + i,
            ),
        decreases USERNAME_SIZE - i,
    {
        username[i] = source[USERNAME_OFFSET + i];
        i += 1;
        assert(username@.take(i as int) =~= source@.subrange(
            USERNAME_OFFSET as int,
            USERNAME_OFFSET + i,
        ));
    }
    let mut email = [0u8; EMAIL_SIZE];
    let mut j: usize = 0;
    while j < EMAIL_SIZE
        invariant
            j <= EMAIL_SIZE,
            source@.len() == ROW_SIZE,
            email@.take(j as int) == source@.subrange(EMAIL_OFFSET as int, EMAIL_OFFSET + j),
        decreases EMAIL_SIZE - j,
    {
        email[j] = source[EMAIL_OFFSET + j];
        j += 1;
        assert(email@.take(j as int) =~= source@.subrange(EMAIL_OFFSET as int, EMAIL_OFFSET + j));
    }
    proof {
        assert(username@.take(USERNAME_SIZE as int) =~= username@);
        assert(email@.take(EMAIL_SIZE as int) =~= email@);
        let id_part = source@.subrange(ID_OFFSET as int, ID_OFFSET + ID_SIZE);
        lemma_id_bytes_of_id(id_part);
        assert(id == id_of(id_part));
        assert(id_bytes(id) + username@ + email@ =~= source@);
    }
    Row { id, username, email }
}

} // verus!
