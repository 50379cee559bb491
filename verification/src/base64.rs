//! Base64 encoding into a fixed 128-byte buffer, and decoding back to bytes.
use crate::text::{all_ascii, ascii_chars, lemma_ascii_utf8, string_from_utf8};
use std::string::FromUtf8Error;
use vstd::prelude::*;
use vstd::utf8::{decode_utf8, valid_utf8};

verus! {

/// The Base64 alphabet: `A`-`Z`, `a`-`z`, `0`-`9`, `+`, `/`.
pub open spec fn alphabet(i: u8) -> u8
    recommends
        i < 64,
{
    if i < 26 {
        (65 + i) as u8
    } else if i < 52 {
        (97 + i - 26) as u8
    } else if i < 62 {
        (48 + i - 52) as u8
    } else if i == 62 {
        43u8
    } else {
        47u8
    }
}

/// The position of an ASCII byte in the alphabet, or 255 when it is not in it.
pub open spec fn decode_value(c: u8) -> u8 {
    if 65 <= c <= 90 {
        (c - 65) as u8
    } else if 97 <= c <= 122 {
        (c - 71) as u8
    } else if 48 <= c <= 57 {
        (c + 4) as u8
    } else if c == 43 {
        62u8
    } else if c == 47 {
        63u8
    } else {
        255u8
    }
}

/// The padding byte `=`.
pub open spec fn pad() -> u8 {
    61u8
}

/// Number of bytes that the encoding of `n` input bytes takes.
pub open spec fn encoded_len(n: int) -> int {
    4 * ((n + 2) / 3)
}

/// Byte `k` of the Base64 encoding of `input` (for `k < encoded_len`).
pub open spec fn encoded_at(input: Seq<u8>, k: int) -> u8 {
    let i = 3 * (k / 4);
    let b1 = input[i];
    let b2: u8 = if i + 1 < input.len() { input[i + 1] } else { 0 };
    let b3: u8 = if i + 2 < input.len() { input[i + 2] } else { 0 };
    if k % 4 == 0 {
        alphabet((b1 >> 2) & 0x3F)
    } else if k % 4 == 1 {
        alphabet(((b1 & 0x03) << 4) | (b2 >> 4))
    } else if k % 4 == 2 {
        if i + 1 < input.len() {
            alphabet(((b2 & 0x0F) << 2) | (b3 >> 6))
        } else {
            pad()
        }
    } else {
        if i + 2 < input.len() {
            alphabet(b3 & 0x3F)
        } else {
            pad()
        }
    }
}

/// The Base64 encoding of `input`, with padding.
pub open spec fn encoding(input: Seq<u8>) -> Seq<u8> {
    Seq::new(encoded_len(input.len() as int) as nat, |k: int| encoded_at(input, k))
}

/// The 128-byte buffer that `encode_bytes` fills: the encoding, cut at 128
/// bytes, then zeros.
pub open spec fn encoded_buffer(input: Seq<u8>) -> Seq<u8> {
    Seq::new(
        128,
        |k: int|
            if k < encoded_len(input.len() as int) {
                encoded_at(input, k)
            } else {
                0u8
            },
    )
}

/// Index of the first padding (`=`) or NUL byte at or after `i`, or the
/// length: where the encoded data in a buffer ends.
pub open spec fn pad_position(s: Seq<u8>, i: int) -> int
    decreases s.len() - i,
{
    if i >= s.len() {
        s.len() as int
    } else if s[i] == pad() || s[i] == 0 {
        i
    } else {
        pad_position(s, i + 1)
    }
}

/// Input byte `j`, or `=` past the end (as the decoder reads it).
pub open spec fn byte_or_pad(input: Seq<u8>, j: int) -> u8 {
    if j < input.len() {
        input[j]
    } else {
        pad()
    }
}

/// Whether the four characters read at `i` form a group the decoder accepts.
pub open spec fn group_valid(input: Seq<u8>, i: int) -> bool {
    let c1 = byte_or_pad(input, i);
    let c2 = byte_or_pad(input, i + 1);
    let c3 = byte_or_pad(input, i + 2);
    let c4 = byte_or_pad(input, i + 3);
    &&& decode_value(c1) != 255
    &&& decode_value(c2) != 255
    &&& (c3 == pad() || decode_value(c3) != 255)
    &&& (c4 == pad() || decode_value(c4) != 255)
}

/// The bytes that the decoder emits for the group at `i`.
pub open spec fn group_bytes(input: Seq<u8>, i: int) -> Seq<u8> {
    let c3 = byte_or_pad(input, i + 2);
    let c4 = byte_or_pad(input, i + 3);
    let x1 = decode_value(byte_or_pad(input, i));
    let x2 = decode_value(byte_or_pad(input, i + 1));
    let x3 = decode_value(c3);
    let x4 = decode_value(c4);
    seq![(x1 << 2) | (x2 >> 4)] + (if c3 != pad() {
        seq![((x2 & 0x0F) << 4) | (x3 >> 2)]
    } else {
        Seq::<u8>::empty()
    }) + (if c4 != pad() {
        seq![((x3 & 0x03) << 6) | x4]
    } else {
        Seq::<u8>::empty()
    })
}

/// Decoding of the groups from position `i` on: `None` when a group is refused.
pub open spec fn decode_from(input: Seq<u8>, i: int) -> Option<Seq<u8>>
    decreases input.len() + 4 - i,
{
    if i >= input.len() || i < 0 {
        Some(Seq::<u8>::empty())
    } else if !group_valid(input, i) {
        None
    } else {
        match decode_from(input, i + 4) {
            Some(rest) => Some(group_bytes(input, i) + rest),
            None => None,
        }
    }
}

pub open spec fn decoding(input: Seq<u8>) -> Option<Seq<u8>> {
    decode_from(input, 0)
}

proof fn lemma_alphabet_index(i: u8)
    requires
        i < 64,
    ensures
        decode_value(alphabet(i)) == i,
        alphabet(i) < 128,
        alphabet(i) != pad(),
{
}

fn alphabet_char(i: u8) -> (c: u8)
    requires
        i < 64,
    ensures
        c == alphabet(i),
{
    if i < 26 {
        65 + i
    } else if i < 52 {
        97 + i - 26
    } else if i < 62 {
        48 + i - 52
    } else if i == 62 {
        43
    } else {
        47
    }
}

/// Builds the table from ASCII code to alphabet position (255 when absent).
fn get_decode_table() -> (table: [u8; 128])
    ensures
        forall|c: int| 0 <= c < 128 ==> #[trigger] table@[c] == decode_value(c as u8),
{
    let mut table = [255u8; 128];
    let mut i: u8 = 0;
    while i < 64
        invariant
            i <= 64,
            forall|c: int|
                0 <= c < 128 ==> #[trigger] table@[c] == (if decode_value(c as u8) < i {
                    decode_value(c as u8)
                } else {
                    255u8
                }),
        decreases 64 - i,
    {
        let byte = alphabet_char(i);
        proof {
            lemma_alphabet_index(i);
        }
        table[byte as usize] = i;
        assert forall|c: int| 0 <= c < 128 implies #[trigger] table@[c] == (if decode_value(
            c as u8,
        ) < i + 1 {
            decode_value(c as u8)
        } else {
            255u8
        }) by {
            if c == byte as int {
            } else {
                if decode_value(c as u8) == i {
                    assert(alphabet(decode_value(c as u8)) == c as u8);
                }
            }
        }
        i = i + 1;
    }
    assert forall|c: int| 0 <= c < 128 implies #[trigger] table@[c] == decode_value(c as u8) by {
        assert(decode_value(c as u8) < 64 || decode_value(c as u8) == 255);
    }
    table
}

proof fn lemma_group_indices(b1: u8, b2: u8, b3: u8)
    ensures
        (b1 >> 2) & 0x3F < 64,
        ((b1 & 0x03) << 4) | (b2 >> 4) < 64,
        ((b2 & 0x0F) << 2) | (b3 >> 6) < 64,
        b3 & 0x3F < 64,
{
    assert((b1 >> 2) & 0x3F < 64) by (bit_vector);
    assert(((b1 & 0x03) << 4) | (b2 >> 4) < 64) by (bit_vector);
    assert(((b2 & 0x0F) << 2) | (b3 >> 6) < 64) by (bit_vector);
    assert(b3 & 0x3F < 64) by (bit_vector);
}

/// Encodes `input` into a 128-byte buffer: the padded Base64 text, cut at 128
/// bytes, followed by zero bytes.
pub fn encode_bytes(input: &[u8]) -> (output: [u8; 128])
    requires
        input@.len() + 3 <= usize::MAX,
    ensures
        output@ == encoded_buffer(input@),
{
    let mut output = [0u8; 128];
    let mut output_index: usize = 0;
    let n = input.len();
    let mut i: usize = 0;
    while i < n
        invariant
            n == input@.len(),
            n + 3 <= usize::MAX,
            i % 3 == 0,
            i <= n + 2,
            output_index == (if encoded_len(i as int) < 128 {
                encoded_len(i as int)
            } else {
                128
            }),
            encoded_len(i as int) == 4 * (i / 3),
            forall|k: int| 0 <= k < output_index ==> #[trigger] output@[k] == encoded_at(input@, k),
            forall|k: int| output_index <= k < 128 ==> #[trigger] output@[k] == 0,
        decreases n + 3 - i,
    {
        let byte1 = input[i];
        let byte2 = if i + 1 < n {
            input[i + 1]
        } else {
            0
        };
        let byte3 = if i + 2 < n {
            input[i + 2]
        } else {
            0
        };
        let index1 = (byte1 >> 2) & 0x3F;
        let index2 = ((byte1 & 0x03) << 4) | (byte2 >> 4);
        let index3 = ((byte2 & 0x0F) << 2) | (byte3 >> 6);
        let index4 = byte3 & 0x3F;
        proof {
            lemma_group_indices(byte1, byte2, byte3);
        }
        let ghost start = output_index as int;
        let ghost old_output = output@;
        if output_index < 128 {
            output[output_index] = alphabet_char(index1);
            output_index += 1;
        }
        if output_index < 128 {
            output[output_index] = alphabet_char(index2);
            output_index += 1;
        }
        if i + 1 < n {
            if output_index < 128 {
                output[output_index] = alphabet_char(index3);
                output_index += 1;
            }
        } else {
            if output_index < 128 {
                output[output_index] = 61u8;
                output_index += 1;
            }
        }
        if i + 2 < n {
            if output_index < 128 {
                output[output_index] = alphabet_char(index4);
                output_index += 1;
            }
        } else {
            if output_index < 128 {
                output[output_index] = 61u8;
                output_index += 1;
            }
        }
        proof {
            if start < 128 {
                assert(start == 4 * (i / 3));
                assert(output_index == start + 4);
                assert forall|k: int| start <= k < start + 4 implies #[trigger] output@[k]
                    == encoded_at(input@, k) by {
                    assert(k / 4 == i / 3);
                    assert(3 * (k / 4) == i);
                }
            }
        }
        i = i + 3;
    }
    assert(output@ =~= encoded_buffer(input@));
    output
}

/// Decodes Base64 text. Every byte must be ASCII (the decoder looks each one
/// up in a 128-entry table). Fails with `Err(())` when a group holds a byte
/// outside the alphabet (padding is accepted in the last two places).
pub fn decode_bytes(input: &[u8]) -> (res: Result<Vec<u8>, ()>)
    requires
        all_ascii(input@),
        input@.len() + 4 <= usize::MAX,
    ensures
        match decoding(input@) {
            Some(bytes) => res matches Ok(v) && v@ == bytes,
            None => res is Err,
        },
{
    let mut output: Vec<u8> = Vec::new();
    let decode_table = get_decode_table();
    let n = input.len();
    let mut i: usize = 0;
    while i < n
        invariant
            n == input@.len(),
            n + 4 <= usize::MAX,
            all_ascii(input@),
            forall|c: int| 0 <= c < 128 ==> #[trigger] decode_table@[c] == decode_value(c as u8),
            decoding(input@) == (match decode_from(input@, i as int) {
                Some(rest) => Some(output@ + rest),
                None => None::<Seq<u8>>,
            }),
        decreases n + 4 - i,
    {
        let byte1 = input[i];
        let byte2 = if i + 1 < n {
            input[i + 1]
        } else {
            61u8
        };
        let byte3 = if i + 2 < n {
            input[i + 2]
        } else {
            61u8
        };
        let byte4 = if i + 3 < n {
            input[i + 3]
        } else {
            61u8
        };
        let index1 = decode_table[byte1 as usize];
        let index2 = decode_table[byte2 as usize];
        let index3 = decode_table[byte3 as usize];
        let index4 = decode_table[byte4 as usize];
        assert(byte1 == byte_or_pad(input@, i as int));
        assert(byte2 == byte_or_pad(input@, i + 1));
        assert(byte3 == byte_or_pad(input@, i + 2));
        assert(byte4 == byte_or_pad(input@, i + 3));
        if index1 == 255 || index2 == 255 || (byte3 != 61u8 && index3 == 255) || (byte4 != 61u8
            && index4 == 255) {
            assert(!group_valid(input@, i as int));
            return Err(());
        }
        let ghost before = output@;
        let byte = (index1 << 2) | (index2 >> 4);
        output.push(byte);
        if byte3 != 61u8 {
            let byte = ((index2 & 0x0F) << 4) | (index3 >> 2);
            output.push(byte);
        }
        if byte4 != 61u8 {
            let byte = ((index3 & 0x03) << 6) | index4;
            output.push(byte);
        }
        assert(output@ =~= before + group_bytes(input@, i as int));
        proof {
            let rest = decode_from(input@, i + 4);
            if rest is Some {
                assert(before + group_bytes(input@, i as int) + rest->0 =~= before + (
                group_bytes(input@, i as int) + rest->0));
            }
        }
        i = i + 4;
    }
    assert(output@ + Seq::<u8>::empty() =~= output@);
    Ok(output)
}

/// Converts an encoded buffer to text: the encoded data, that is the bytes
/// before the first `=` or NUL (all 128 when there is neither), which must
/// be valid UTF-8.
pub fn encoded_to_string(encoded: [u8; 128]) -> (res: Result<String, FromUtf8Error>)
    ensures
        ({
            let text = encoded@.take(pad_position(encoded@, 0));
            &&& res is Ok <==> valid_utf8(text)
            &&& res matches Ok(s) ==> s@ == decode_utf8(text)
        }),
{
    let mut len: usize = 0;
    while len < 128
        invariant
            len <= 128,
            pad_position(encoded@, 0) == pad_position(encoded@, len as int),
        ensures
            len <= 128,
            pad_position(encoded@, 0) == len,
        decreases 128 - len,
    {
        if encoded[len] == 61u8 || encoded[len] == 0u8 {
            break;
        }
        len = len + 1;
    }
    let mut bytes: Vec<u8> = Vec::new();
    let mut j: usize = 0;
    while j < len
        invariant
            j <= len <= 128,
            bytes@ == encoded@.take(j as int),
        decreases len - j,
    {
        bytes.push(encoded[j]);
        assert(bytes@ =~= encoded@.take(j + 1));
        j = j + 1;
    }
    assert(len == pad_position(encoded@, 0));
    string_from_utf8(bytes)
}

/// Converts decoded bytes to text; they must be valid UTF-8.
pub fn decoded_to_string(decoded: Vec<u8>) -> (res: Result<String, FromUtf8Error>)
    ensures
        res is Ok <==> valid_utf8(decoded@),
        res matches Ok(s) ==> s@ == decode_utf8(decoded@),
{
    string_from_utf8(decoded)
}

proof fn lemma_encoded_buffer_ascii(input: Seq<u8>)
    ensures
        all_ascii(encoded_buffer(input)),
{
    let buf = encoded_buffer(input);
    assert forall|k: int| 0 <= k < buf.len() implies buf[k] < 128 by {
        if k < encoded_len(input.len() as int) {
            let i = 3 * (k / 4);
            let b1 = input[i];
            let b2: u8 = if i + 1 < input.len() { input[i + 1] } else { 0 };
            let b3: u8 = if i + 2 < input.len() { input[i + 2] } else { 0 };
            lemma_group_indices(b1, b2, b3);
        }
    }
}

/// The text that `encode` returns for `bytes`: the encoded buffer up to its
/// first padding or NUL byte.
pub open spec fn encoded_text(bytes: Seq<u8>) -> Seq<char> {
    let buf = encoded_buffer(bytes);
    ascii_chars(buf.take(pad_position(buf, 0)))
}

/// Encodes bytes as Base64 text (without the padding characters).
pub fn encode(bytes: &[u8]) -> (res: String)
    requires
        bytes@.len() + 3 <= usize::MAX,
    ensures
        res@ == encoded_text(bytes@),
{
    let encoded_input = encode_bytes(bytes);
    proof {
        let buf = encoded_buffer(bytes@);
        lemma_encoded_buffer_ascii(bytes@);
        let p = pad_position(buf, 0);
        lemma_pad_position_bounds(buf, 0);
        assert(all_ascii(buf.take(p)));
        lemma_ascii_utf8(buf.take(p));
    }
    match encoded_to_string(encoded_input) {
        Ok(result) => result,
        Err(e) => {
            let mut msg = String::from_str("An error occured when trying to encode! ");
            let detail = e.to_string();
            msg.append(detail.as_str());
            msg
        },
    }
}

proof fn lemma_pad_position_bounds(s: Seq<u8>, i: int)
    requires
        0 <= i <= s.len(),
    ensures
        i <= pad_position(s, i) <= s.len(),
    decreases s.len() - i,
{
    if i < s.len() && s[i] != pad() && s[i] != 0 {
        lemma_pad_position_bounds(s, i + 1);
    }
}

/// What `decode` answers for `bytes`: the decoded text, or an error message
/// (which, for bytes that are not UTF-8, ends in the conversion error's
/// description).
pub open spec fn decode_answer(bytes: Seq<u8>, res: Seq<char>) -> bool {
    match decoding(bytes) {
        None => res == "An error occured when trying to decode! ()"@,
        Some(d) => if valid_utf8(d) {
            res == decode_utf8(d)
        } else {
            res.len() >= 40 && res.take(40) == "An error occured when trying to decode! "@
        },
    }
}

/// Decodes Base64 text into a string. When the text is refused, or the bytes
/// are not UTF-8, the result is an error message instead.
pub fn decode(bytes: &[u8]) -> (res: String)
    requires
        all_ascii(bytes@),
        bytes@.len() + 4 <= usize::MAX,
    ensures
        decode_answer(bytes@, res@),
{
    proof {
        reveal_strlit("An error occured when trying to decode! ");
    }
    match decode_bytes(bytes) {
        Ok(decoded_input) => match decoded_to_string(decoded_input) {
            Ok(result) => result,
            Err(e) => {
                let mut msg = String::from_str("An error occured when trying to decode! ");
                let detail = e.to_string();
                msg.append(detail.as_str());
                assert(msg@.take(40) =~= "An error occured when trying to decode! "@);
                msg
            },
        },
        Err(_) => String::from_str("An error occured when trying to decode! ()"),
    }
}

proof fn lemma_group_roundtrip(b1: u8, b2: u8, b3: u8)
    ensures
        ({
            let x1 = (b1 >> 2) & 0x3F;
            let x2 = ((b1 & 0x03) << 4) | (b2 >> 4);
            let x3 = ((b2 & 0x0F) << 2) | (b3 >> 6);
            let x4 = b3 & 0x3F;
            &&& (x1 << 2) | (x2 >> 4) == b1
            &&& ((x2 & 0x0F) << 4) | (x3 >> 2) == b2
            &&& ((x3 & 0x03) << 6) | x4 == b3
        }),
{
    assert((((b1 >> 2) & 0x3F) << 2) | ((((b1 & 0x03) << 4) | (b2 >> 4)) >> 4) == b1)
        by (bit_vector);
    assert((((((b1 & 0x03) << 4) | (b2 >> 4)) & 0x0F) << 4) | ((((b2 & 0x0F) << 2) | (b3
        >> 6)) >> 2) == b2) by (bit_vector);
    assert((((((b2 & 0x0F) << 2) | (b3 >> 6)) & 0x03) << 6) | (b3 & 0x3F) == b3)
        by (bit_vector);
}

proof fn lemma_decode_encoding_from(input: Seq<u8>, g: int)
    requires
        0 <= g,
        3 * g <= input.len() + 2,
    ensures
        decode_from(encoding(input), 4 * g) == Some(
            if 3 * g < input.len() {
                input.subrange(3 * g, input.len() as int)
            } else {
                Seq::<u8>::empty()
            },
        ),
    decreases input.len() + 3 - 3 * g,
{
    let e = encoding(input);
    let n = input.len() as int;
    if 3 * g < n {
        let i = 3 * g;
        assert(4 * g + 3 < e.len());
        let b1 = input[i];
        let b2: u8 = if i + 1 < n { input[i + 1] } else { 0 };
        let b3: u8 = if i + 2 < n { input[i + 2] } else { 0 };
        lemma_group_indices(b1, b2, b3);
        lemma_group_roundtrip(b1, b2, b3);
        let x1 = (b1 >> 2) & 0x3F;
        let x2 = ((b1 & 0x03) << 4) | (b2 >> 4);
        let x3 = ((b2 & 0x0F) << 2) | (b3 >> 6);
        let x4 = b3 & 0x3F;
        lemma_alphabet_index(x1);
        lemma_alphabet_index(x2);
        lemma_alphabet_index(x3);
        lemma_alphabet_index(x4);
        assert((4 * g) / 4 == g && (4 * g + 1) / 4 == g && (4 * g + 2) / 4 == g && (4 * g + 3) / 4
            == g);
        assert(byte_or_pad(e, 4 * g) == alphabet(x1));
        assert(byte_or_pad(e, 4 * g + 1) == alphabet(x2));
        assert(byte_or_pad(e, 4 * g + 2) == if i + 1 < n { alphabet(x3) } else { pad() });
        assert(byte_or_pad(e, 4 * g + 3) == if i + 2 < n { alphabet(x4) } else { pad() });
        assert(group_valid(e, 4 * g));
        lemma_decode_encoding_from(input, g + 1);
        assert(4 * g + 4 == 4 * (g + 1));
        let rest = if 3 * (g + 1) < n {
            input.subrange(3 * (g + 1), n)
        } else {
            Seq::<u8>::empty()
        };
        assert(decode_from(e, 4 * g) == Some(group_bytes(e, 4 * g) + rest));
        if i + 2 < n {
            assert(group_bytes(e, 4 * g) =~= seq![b1, b2, b3]);
        } else if i + 1 < n {
            assert(group_bytes(e, 4 * g) =~= seq![b1, b2]);
        } else {
            assert(group_bytes(e, 4 * g) =~= seq![b1]);
        }
        assert(group_bytes(e, 4 * g) + rest =~= input.subrange(i, n));
    } else {
        assert(4 * g >= e.len());
    }
}

/// Base64 round trip: decoding the (padded) encoding of any byte string gives
/// back exactly those bytes.
pub proof fn lemma_decode_encode(input: Seq<u8>)
    ensures
        decoding(encoding(input)) == Some(input),
{
    lemma_decode_encoding_from(input, 0);
    if input.len() > 0 {
        assert(input.subrange(0, input.len() as int) =~= input);
    } else {
        assert(input =~= Seq::<u8>::empty());
    }
}

/// What `encode_bytes` writes is the encoding itself as long as it fits the
/// buffer (inputs of at most 96 bytes), followed by zeros.
pub proof fn lemma_encoded_buffer_holds_encoding(input: Seq<u8>)
    requires
        input.len() <= 96,
    ensures
        encoded_buffer(input).take(encoded_len(input.len() as int)) == encoding(input),
        forall|k: int|
            encoded_len(input.len() as int) <= k < 128 ==> #[trigger] encoded_buffer(input)[k]
                == 0,
{
    assert(encoded_buffer(input).take(encoded_len(input.len() as int)) =~= encoding(input));
}


/// Length of the Base64 encoding of `n` bytes without its `=` padding.
pub open spec fn unpadded_len(n: int) -> int {
    if n % 3 == 0 {
        4 * (n / 3)
    } else {
        4 * (n / 3) + n % 3 + 1
    }
}

proof fn lemma_pad_position_at(s: Seq<u8>, i: int, j: int)
    requires
        0 <= i <= j <= s.len(),
        forall|k: int| i <= k < j ==> s[k] != pad() && s[k] != 0,
        j == s.len() || s[j] == pad() || s[j] == 0,
    ensures
        pad_position(s, i) == j,
    decreases j - i,
{
    if i < j {
        lemma_pad_position_at(s, i + 1, j);
    }
}

proof fn lemma_encoding_shape(input: Seq<u8>, k: int)
    requires
        0 <= k < encoded_len(input.len() as int),
    ensures
        k < unpadded_len(input.len() as int) ==> encoded_at(input, k) != pad() && encoded_at(input, k) != 0
            && encoded_at(input, k) < 128,
        k >= unpadded_len(input.len() as int) ==> encoded_at(input, k) == pad(),
{
    let n = input.len() as int;
    let i = 3 * (k / 4);
    assert(i < n);
    let b1 = input[i];
    let b2: u8 = if i + 1 < n { input[i + 1] } else { 0 };
    let b3: u8 = if i + 2 < n { input[i + 2] } else { 0 };
    lemma_group_indices(b1, b2, b3);
    lemma_alphabet_index((b1 >> 2) & 0x3F);
    lemma_alphabet_index(((b1 & 0x03) << 4) | (b2 >> 4));
    lemma_alphabet_index(((b2 & 0x0F) << 2) | (b3 >> 6));
    lemma_alphabet_index(b3 & 0x3F);
}

/// Base64 text without padding: for an input that fits the buffer (at most
/// 96 bytes), the encoded data that `encode_bytes` writes ends exactly where
/// the padding of the encoding begins, so converting the buffer gives the
/// encoding without its `=` characters (all of them ASCII), and everything
/// after that cut in the encoding is `=`.
pub proof fn lemma_encoded_text_unpadded(input: Seq<u8>)
    requires
        input.len() <= 96,
    ensures
        ({
            let n = input.len() as int;
            let text = encoding(input).take(unpadded_len(n));
            &&& pad_position(encoded_buffer(input), 0) == unpadded_len(n)
            &&& encoded_buffer(input).take(unpadded_len(n)) == text
            &&& forall|k: int| 0 <= k < text.len() ==> #[trigger] text[k] != pad()
            &&& forall|k: int|
                unpadded_len(n) <= k < encoded_len(n) ==> #[trigger] encoding(input)[k] == pad()
            &&& valid_utf8(text)
            &&& decode_utf8(text) == ascii_chars(text)
            &&& encoded_text(input) == ascii_chars(text)
        }),
{
    let n = input.len() as int;
    let ul = unpadded_len(n);
    let el = encoded_len(n);
    let buf = encoded_buffer(input);
    assert(ul <= el <= 128);
    assert forall|k: int| 0 <= k < el implies (k < ul ==> #[trigger] encoded_at(input, k) != pad()
        && encoded_at(input, k) != 0 && encoded_at(input, k) < 128) && (k >= ul ==> encoded_at(
        input,
        k,
    ) == pad()) by {
        lemma_encoding_shape(input, k);
    }
    assert forall|k: int| 0 <= k < ul implies buf[k] != pad() && buf[k] != 0 by {
        assert(buf[k] == encoded_at(input, k));
    }
    if ul < 128 {
        if ul < el {
            assert(buf[ul] == encoded_at(input, ul));
        } else {
            assert(buf[ul] == 0);
        }
    }
    lemma_pad_position_at(buf, 0, ul);
    let text = encoding(input).take(ul);
    assert(buf.take(ul) =~= text);
    assert(all_ascii(text)) by {
        assert forall|k: int| 0 <= k < text.len() implies text[k] < 128 by {
            assert(text[k] == encoded_at(input, k));
        }
    }
    assert forall|k: int| 0 <= k < text.len() implies #[trigger] text[k] != pad() by {
        assert(text[k] == encoded_at(input, k));
    }
    assert forall|k: int| ul <= k < el implies #[trigger] encoding(input)[k] == pad() by {
        assert(encoding(input)[k] == encoded_at(input, k));
    }
    lemma_ascii_utf8(text);
}

} // verus!
