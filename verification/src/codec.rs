//! Digests and encodings computed by outside crates: SHA-256 (`sha2`), standard base64
//! (`base64`) and CSV records (`csv`).
//!
//! Each function here makes one outside call.  Standard base64 is written out as a spec
//! function, and so is the CSV layout of one record; the SHA-256 digest and a base64 decoding
//! error's message are named by spec functions without a body.
use vstd::prelude::*;
use vstd::utf8::encode_utf8;
use base64::Engine;
use sha2::Digest;

verus! {

/// The SHA-256 digest of a byte string (FIPS 180-4).
pub uninterp spec fn sha256(data: Seq<u8>) -> Seq<u8>;

/// The symbol of a six-bit value in the standard base64 alphabet: `A`-`Z`, `a`-`z`, `0`-`9`,
/// `+`, `/`.
pub open spec fn base64_symbol(n: int) -> char {
    if n < 26 {
        (65 + n) as char
    } else if n < 52 {
        (71 + n) as char
    } else if n < 62 {
        (n - 4) as char
    } else if n == 62 {
        '+'
    } else {
        '/'
    }
}

/// The standard base64 encoding of a byte string (RFC 4648, standard alphabet, `=` padding):
/// each group of three bytes becomes four symbols, and a final group of one or two bytes
/// becomes two or three symbols padded with `=` to four.
pub open spec fn base64_standard(data: Seq<u8>) -> Seq<char>
    decreases data.len(),
{
    if data.len() == 0 {
        Seq::empty()
    } else if data.len() == 1 {
        let a = data[0] as int;
        seq![base64_symbol(a / 4), base64_symbol((a % 4) * 16), '=', '=']
    } else if data.len() == 2 {
        let a = data[0] as int;
        let b = data[1] as int;
        seq![base64_symbol(a / 4), base64_symbol((a % 4) * 16 + b / 16), base64_symbol((b % 16) * 4), '=']
    } else {
        let a = data[0] as int;
        let b = data[1] as int;
        let c = data[2] as int;
        seq![
            base64_symbol(a / 4),
            base64_symbol((a % 4) * 16 + b / 16),
            base64_symbol((b % 16) * 4 + c / 64),
            base64_symbol(c % 64),
        ] + base64_standard(data.skip(3))
    }
}

/// Text that is the standard base64 encoding of some bytes.
pub open spec fn is_base64_standard(text: Seq<char>) -> bool {
    exists|d: Seq<u8>| #[trigger] base64_standard(d) == text
}

/// A character that can occur in standard base64: a symbol of the alphabet or `=`.
pub open spec fn base64_text_char(c: char) -> bool {
    ||| 65 <= c as int <= 90
    ||| 97 <= c as int <= 122
    ||| 48 <= c as int <= 57
    ||| c == '+'
    ||| c == '/'
    ||| c == '='
}

/// The encoding has four characters for every three bytes or part of three bytes.
pub proof fn lemma_base64_len(data: Seq<u8>)
    ensures
        base64_standard(data).len() == 4 * ((data.len() + 2) / 3),
    decreases data.len(),
{
    if data.len() >= 3 {
        lemma_base64_len(data.skip(3));
    }
}

proof fn lemma_base64_symbol(n: int)
    requires
        0 <= n < 64,
    ensures
        base64_text_char(base64_symbol(n)),
        base64_symbol(n) != '=',
{
}

/// Every character of an encoding can occur in standard base64.
pub proof fn lemma_base64_chars(data: Seq<u8>)
    ensures
        forall|i: int| 0 <= i < base64_standard(data).len() ==> base64_text_char(
            #[trigger] base64_standard(data)[i],
        ),
    decreases data.len(),
{
    if data.len() == 0 {
    } else if data.len() < 3 {
        let a = data[0] as int;
        lemma_base64_symbol(a / 4);
        if data.len() == 1 {
            lemma_base64_symbol((a % 4) * 16);
        } else {
            let b = data[1] as int;
            lemma_base64_symbol((a % 4) * 16 + b / 16);
            lemma_base64_symbol((b % 16) * 4);
        }
    } else {
        let a = data[0] as int;
        let b = data[1] as int;
        let c = data[2] as int;
        lemma_base64_symbol(a / 4);
        lemma_base64_symbol((a % 4) * 16 + b / 16);
        lemma_base64_symbol((b % 16) * 4 + c / 64);
        lemma_base64_symbol(c % 64);
        lemma_base64_chars(data.skip(3));
        let head = seq![
            base64_symbol(a / 4),
            base64_symbol((a % 4) * 16 + b / 16),
            base64_symbol((b % 16) * 4 + c / 64),
            base64_symbol(c % 64),
        ];
        assert forall|i: int| 0 <= i < base64_standard(data).len() implies base64_text_char(
            #[trigger] base64_standard(data)[i],
        ) by {
            if i >= 4 {
                assert(base64_standard(data)[i] == base64_standard(data.skip(3))[i - 4]);
            } else {
                assert(base64_standard(data)[i] == head[i]);
            }
        }
    }
}

/// Bytes that make the default CSV writer quote a field: `,`, `"`, carriage return, line feed.
pub open spec fn csv_special_byte(b: u8) -> bool {
    b == 44 || b == 34 || b == 13 || b == 10
}

/// A field's bytes with every `"` doubled.
pub open spec fn csv_escaped(field: Seq<u8>) -> Seq<u8>
    decreases field.len(),
{
    if field.len() == 0 {
        Seq::empty()
    } else {
        csv_escaped(field.drop_last()) + if field.last() == 34 {
            seq![34u8, 34u8]
        } else {
            seq![field.last()]
        }
    }
}

/// A field as written: in quotes, with its quotes doubled, when it holds a special byte, and
/// as it is otherwise.
pub open spec fn csv_field(field: Seq<u8>) -> Seq<u8> {
    if exists|i: int| 0 <= i < field.len() && csv_special_byte(#[trigger] field[i]) {
        seq![34u8] + csv_escaped(field) + seq![34u8]
    } else {
        field
    }
}

/// Fields as written, separated by `,`.
pub open spec fn csv_joined(fields: Seq<Seq<u8>>) -> Seq<u8>
    decreases fields.len(),
{
    if fields.len() == 0 {
        Seq::empty()
    } else if fields.len() == 1 {
        csv_field(fields[0])
    } else {
        csv_joined(fields.drop_last()) + seq![44u8] + csv_field(fields.last())
    }
}

/// One record as a CSV writer with default settings writes it as its first record: the fields'
/// UTF-8 bytes, each quoted where needed, separated by `,`; `""` where that leaves nothing (a
/// record of no fields or of one empty field); then a line feed.
pub open spec fn csv_record(fields: Seq<Seq<char>>) -> Seq<u8> {
    let body = csv_joined(fields.map_values(|f: Seq<char>| encode_utf8(f)));
    (if body.len() == 0 {
        seq![34u8, 34u8]
    } else {
        body
    }) + seq![10u8]
}

/// The message of the error that decoding `text` as standard padded base64 reports.
pub uninterp spec fn base64_decode_message(text: Seq<char>) -> Seq<char>;

/// Bytes produced by an outside call, or the message of its error.
pub type BytesOrMessage = Result<Vec<u8>, String>;

/// The bytes of a successful outcome.
pub open spec fn ok_bytes(r: BytesOrMessage) -> Option<Seq<u8>> {
    match r {
        Ok(v) => Some(v@),
        Err(_) => None,
    }
}

/// The characters of each string.
pub open spec fn strings_view(v: Seq<String>) -> Seq<Seq<char>> {
    v.map_values(|s: String| s@)
}

/// `sha2::Sha256::digest`: the 32-byte SHA-256 digest of `data`.
#[verifier::external_body]
pub(crate) fn sha256_digest(data: &[u8]) -> (d: Vec<u8>)
    ensures
        d@ == sha256(data@),
        d@.len() == 32,
{
    sha2::Sha256::digest(data).to_vec()
}

/// `base64::engine::general_purpose::STANDARD.encode`: standard padded base64 of `data`.  The
/// crate panics when the length
/// of the encoding overflows `usize`, which the bound on `data` rules out.
#[verifier::external_body]
pub(crate) fn base64_encode(data: &[u8]) -> (s: String)
    requires
        data@.len() <= usize::MAX / 2,
    ensures
        s@ == base64_standard(data@),
{
    base64::engine::general_purpose::STANDARD.encode(data)
}

/// `base64::engine::general_purpose::STANDARD.decode`, with a decoding error turned into its
/// message.  The engine requires canonical padding and no stray trailing bits, so it accepts
/// exactly the texts that are the standard encoding of some bytes, and gives those bytes back.
#[verifier::external_body]
pub(crate) fn base64_decode(text: &str) -> (r: BytesOrMessage)
    ensures
        (r is Ok) == is_base64_standard(text@),
        forall|d: Seq<u8>| base64_standard(d) == text@ ==> ok_bytes(r) == Some(d),
        r matches Err(m) ==> m@ == base64_decode_message(text@),
{
    match base64::engine::general_purpose::STANDARD.decode(text) {
        Ok(v) => Ok(v),
        Err(e) => Err(e.to_string()),
    }
}

/// `csv::Writer::write_record` on a fresh writer into a `Vec<u8>`, then
/// `csv::Writer::into_inner`: the bytes of one record.  The writer's only errors are those of
/// the underlying writer, which a `Vec<u8>` never reports, and a record whose field count
/// differs from the first record's, which the first record cannot have; so it succeeds.
#[verifier::external_body]
pub(crate) fn csv_write_record(fields: &Vec<String>) -> (r: BytesOrMessage)
    ensures
        ok_bytes(r) == Some(csv_record(strings_view(fields@))),
{
    let mut w = csv::Writer::from_writer(Vec::new());
    if let Err(e) = w.write_record(fields) {
        return Err(e.to_string());
    }
    match w.into_inner() {
        Ok(b) => Ok(b),
        Err(e) => Err(e.to_string()),
    }
}

} // verus!
