//! A row: an id, a user name and an e-mail address. The two texts are kept
//! in fields of fixed width, filled up with zero bytes.

use crate::layout::{EMAIL_SIZE, USERNAME_SIZE};
use vstd::prelude::*;
use vstd::utf8::encode_utf8;

verus! {

/// `bytes` without the zero bytes at its end.
pub open spec fn strip_zeros(bytes: Seq<u8>) -> Seq<u8>
    decreases bytes.len(),
{
    if bytes.len() > 0 && bytes.last() == 0 {
        strip_zeros(bytes.drop_last())
    } else {
        bytes
    }
}

/// `text` in a field of `width` bytes: the text, then zero bytes.
pub open spec fn pad_zeros(text: Seq<u8>, width: nat) -> Seq<u8> {
    Seq::new(
        width,
        |i: int|
            if i < text.len() {
                text[i]
            } else {
                0u8
            },
    )
}

/// Whether `text` is empty or ends in another byte than zero.
pub open spec fn is_stripped(text: Seq<u8>) -> bool {
    text.len() == 0 || text.last() != 0
}

/// What a row says: its id and its two texts, without the zero bytes that
/// fill up their fields.
pub struct RowData {
    pub id: u32,
    pub username: Seq<u8>,
    pub email: Seq<u8>,
}

impl RowData {
    /// The row that is made of `id` and of the two texts `username` and
    /// `email`. Zero bytes at the end of a text are not told apart from the
    /// zero bytes that fill up its field, so the row holds the text without
    /// them.
    pub open spec fn of(id: u32, username: Seq<u8>, email: Seq<u8>) -> RowData {
        RowData { id, username: strip_zeros(username), email: strip_zeros(email) }
    }

    /// Whether a row can say this: each text fits its field and does not end
    /// in a zero byte.
    pub open spec fn valid(self) -> bool {
        &&& self.username.len() <= USERNAME_SIZE
        &&& self.email.len() <= EMAIL_SIZE
        &&& is_stripped(self.username)
        &&& is_stripped(self.email)
    }
}

/// A row as it is held in memory.
#[derive(Clone, Copy, Debug, PartialEq, Eq)]
pub struct Row {
    pub id: u32,
    pub username: [u8; USERNAME_SIZE],
    pub email: [u8; EMAIL_SIZE],
}

impl View for Row {
    type V = RowData;

    open spec fn view(&self) -> RowData {
        RowData::of(self.id, self.username@, self.email@)
    }
}

/// What is left of a text when the zero bytes at its end are taken away is
/// a start of the text that does not end in a zero byte, and only zero bytes
/// were taken away.
pub proof fn lemma_strip_zeros(bytes: Seq<u8>)
    ensures
        strip_zeros(bytes).len() <= bytes.len(),
        strip_zeros(bytes) == bytes.take(strip_zeros(bytes).len() as int),
        is_stripped(strip_zeros(bytes)),
        forall|i: int| strip_zeros(bytes).len() <= i < bytes.len() ==> bytes[i] == 0,
    decreases bytes.len(),
{
    if bytes.len() > 0 && bytes.last() == 0 {
        let shorter = bytes.drop_last();
        lemma_strip_zeros(shorter);
        let n = strip_zeros(shorter).len() as int;
        assert(shorter.take(n) =~= bytes.take(n));
        assert forall|i: int| n <= i < bytes.len() implies bytes[i] == 0 by {
            if i < shorter.len() {
                assert(shorter[i] == 0);
            }
        }
    } else {
        assert(bytes.take(bytes.len() as int) =~= bytes);
    }
}

/// A text that is put in a field and taken out again is the text without the
/// zero bytes at its end.
pub proof fn lemma_strip_pad(text: Seq<u8>, width: nat)
    requires
        text.len() <= width,
    ensures
        strip_zeros(pad_zeros(text, width)) == strip_zeros(text),
    decreases width - text.len(),
{
    let field = pad_zeros(text, width);
    if text.len() == width {
        assert(field =~= text);
    } else {
        assert(field.last() == 0);
        assert(field.drop_last() =~= pad_zeros(text, (width - 1) as nat));
        lemma_strip_pad(text, (width - 1) as nat);
    }
}

/// A field holds what its text gives when it is filled up again.
pub proof fn lemma_pad_strip(field: Seq<u8>)
    ensures
        pad_zeros(strip_zeros(field), field.len()) == field,
{
    lemma_strip_zeros(field);
    assert(pad_zeros(strip_zeros(field), field.len()) =~= field);
}

/// The decimal digits of `n`, as ASCII characters.
pub open spec fn decimal(n: nat) -> Seq<u8>
    decreases n,
{
    if n < 10 {
        seq![('0' as u8 + n) as u8]
    } else {
        decimal(n / 10).push(('0' as u8 + n % 10) as u8)
    }
}

/// The text that shows `row`: `(id, username, email)`.
pub open spec fn display_text(row: RowData) -> Seq<u8> {
    seq!['(' as u8] + decimal(row.id as nat) + seq![',' as u8, ' ' as u8] + row.username + seq![
        ',' as u8,
        ' ' as u8,
    ] + row.email + seq![')' as u8]
}

/// Puts `text` in a field of `N` bytes.
pub fn padded<const N: usize>(text: &[u8]) -> (field: [u8; N])
    requires
        text@.len() <= N,
    ensures
        field@ == pad_zeros(text@, N as nat),
{
    let mut field = [0u8; N];
    let mut i: usize = 0;
    while i < text.len()
        invariant
            i <= text@.len() <= N,
            field@ == pad_zeros(text@.take(i as int), N as nat),
        decreases text@.len() - i,
    {
        field[i] = text[i];
        i += 1;
        assert(field@ =~= pad_zeros(text@.take(i as int), N as nat));
    }
    assert(text@.take(i as int) =~= text@);
    field
}

/// Takes the text out of `field`.
pub fn stripped(field: &[u8]) -> (text: Vec<u8>)
    ensures
        text@ == strip_zeros(field@),
{
    let mut end: usize = field.len();
    assert(field@.take(end as int) =~= field@);
    while end > 0 && field[end - 1] == 0
        invariant
            end <= field@.len(),
            strip_zeros(field@) == strip_zeros(field@.take(end as int)),
        decreases end,
    {
        assert(field@.take(end as int).drop_last() =~= field@.take(end - 1));
        end -= 1;
    }
    let mut text: Vec<u8> = Vec::new();
    let mut i: usize = 0;
    while i < end
        invariant
            i <= end <= field@.len(),
            text@ == field@.take(i as int),
        decreases end - i,
    {
        text.push(field[i]);
        i += 1;
        assert(text@ =~= field@.take(i as int));
    }
    text
}

/// Appends the decimal digits of `n` to `out`.
pub fn push_decimal(out: &mut Vec<u8>, n: u32)
    ensures
        final(out)@ == old(out)@ + decimal(n as nat),
{
    let mut digits: Vec<u8> = Vec::new();
    let mut rest: u32 = n;
    while rest >= 10
        invariant
            decimal(n as nat) == decimal(rest as nat) + digits@,
        decreases rest,
    {
        let digit: u8 = (rest % 10) as u8;
        let ghost lower = digits@;
        digits.insert(0, '0' as u8 + digit);
        proof {
            let shorter = decimal((rest / 10) as nat);
            assert(decimal(rest as nat) == shorter.push(('0' as u8 + rest % 10) as u8));
            assert(shorter.push(('0' as u8 + rest % 10) as u8) + lower =~= shorter + digits@);
        }
        rest = rest / 10;
    }
    out.push('0' as u8 + rest as u8);
    let mut i: usize = 0;
    while i < digits.len()
        invariant
            i <= digits@.len(),
            out@ == old(out)@ + decimal(rest as nat) + digits@.take(i as int),
        decreases digits@.len() - i,
    {
        out.push(digits[i]);
        i += 1;
        assert(out@ =~= old(out)@ + decimal(rest as nat) + digits@.take(i as int));
    }
    assert(digits@.take(i as int) =~= digits@);
    assert(old(out)@ + decimal(rest as nat) + digits@ =~= old(out)@ + (decimal(rest as nat)
        + digits@));
}

impl Row {
    /// Makes the row of `id`, `username` and `email`. Each text is held as
    /// its UTF-8 bytes and has to fit its field.
    pub fn new(id: u32, username: &str, email: &str) -> (row: Row)
        requires
            encode_utf8(username@).len() <= USERNAME_SIZE,
            encode_utf8(email@).len() <= EMAIL_SIZE,
        ensures
            row.id == id,
            row.username@ == pad_zeros(encode_utf8(username@), USERNAME_SIZE as nat),
            row.email@ == pad_zeros(encode_utf8(email@), EMAIL_SIZE as nat),
            row@ == RowData::of(id, encode_utf8(username@), encode_utf8(email@)),
    {
        proof {
            lemma_strip_pad(encode_utf8(username@), USERNAME_SIZE as nat);
            lemma_strip_pad(encode_utf8(email@), EMAIL_SIZE as nat);
        }
        Row { id, username: padded(username.as_bytes()), email: padded(email.as_bytes()) }
    }

    /// The user name, without the zero bytes that fill up its field.
    pub fn username_text(&self) -> (text: Vec<u8>)
        ensures
            text@ == self@.username,
    {
        stripped(self.username.as_slice())
    }

    /// The e-mail address, without the zero bytes that fill up its field.
    pub fn email_text(&self) -> (text: Vec<u8>)
        ensures
            text@ == self@.email,
    {
        stripped(self.email.as_slice())
    }

    /// Appends the text that shows the row to `out`: `(id, username, email)`.
    pub fn display(&self, out: &mut Vec<u8>)
        ensures
            final(out)@ == old(out)@ + display_text(self@),
    {
        let ghost before = out@;
        out.push('(' as u8);
        push_decimal(out, self.id);
        out.push(',' as u8);
        out.push(' ' as u8);
        let mut username = self.username_text();
        out.append(&mut username);
        out.push(',' as u8);
        out.push(' ' as u8);
        let mut email = self.email_text();
        out.append(&mut email);
        out.push(')' as u8);
        assert(out@ =~= before + display_text(self@));
    }
}

/// What every row says is something that a row can say.
pub proof fn lemma_row_valid(row: Row)
    ensures
        row@.valid(),
{
    lemma_strip_zeros(row.username@);
    lemma_strip_zeros(row.email@);
}

} // verus!
