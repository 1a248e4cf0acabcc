//! Text shown to the user: previews of message bodies and errors of client calls.

use vstd::prelude::*;
use vstd::utf8::{decode_utf8, encode_utf8, is_char_boundary, valid_utf8};

verus! {

/// `value` cut after its first `max_len` bytes, marked with `...`, or `value` itself where it
/// is no longer than that.
pub open spec fn truncated(value: Seq<char>, max_len: int) -> Seq<char> {
    let bytes = encode_utf8(value);
    if bytes.len() <= max_len {
        value
    } else {
        decode_utf8(bytes.subrange(0, max_len)) + seq!['.', '.', '.']
    }
}

/// Shortens `value` to its first `max_len` bytes followed by `...`, where it is longer; the
/// cut must fall between two characters.
pub fn truncate_text(value: &str, max_len: usize) -> (r: String)
    requires
        encode_utf8(value@).len() <= max_len || is_char_boundary(encode_utf8(value@), max_len as int),
    ensures
        r@ == truncated(value@, max_len as int),
{
    if value.as_bytes().len() <= max_len {
        return value.to_owned();
    }
    let (head, _) = value.split_at(max_len);
    let mut out = head.to_owned();
    let dots = "...";
    proof {
        reveal_strlit("...");
        vstd::utf8::encode_utf8_decode_utf8(head@);
    }
    out.append(dots);
    out
}

/// The decimal digits, in order.
pub open spec fn decimal_digits() -> Seq<char> {
    seq!['0', '1', '2', '3', '4', '5', '6', '7', '8', '9']
}

/// `n` written in decimal.
pub open spec fn decimal(n: nat) -> Seq<char>
    decreases n,
{
    if n < 10 {
        seq![decimal_digits()[n as int]]
    } else {
        decimal(n / 10).push(decimal_digits()[(n % 10) as int])
    }
}

/// Appends `n` in decimal to `out`.
pub(crate) fn push_decimal(out: &mut String, n: u64)
    ensures
        final(out)@ == old(out)@ + decimal(n as nat),
    decreases n,
{
    if n >= 10 {
        push_decimal(out, n / 10);
    }
    let digits = "0123456789";
    proof {
        reveal_strlit("0123456789");
        assert(digits@ =~= decimal_digits());
    }
    let d = (n % 10) as usize;
    let c = digits.substring_char(d, d + 1);
    out.append(c);
    proof {
        assert(c@ =~= seq![decimal_digits()[(n % 10) as int]]);
        if n >= 10 {
            assert(final(out)@ =~= old(out)@ + decimal(n as nat));
        } else {
            assert(final(out)@ =~= old(out)@ + decimal(n as nat));
        }
    }
}

/// Calls `std::str::from_utf8`, which, as its documentation says, gives the bytes as text
/// exactly where they are valid UTF-8.
#[verifier::external_body]
fn utf8_text(bytes: &[u8]) -> (r: Option<&str>)
    ensures
        r is Some <==> valid_utf8(bytes@),
        r matches Some(s) ==> s@ == decode_utf8(bytes@),
{
    std::str::from_utf8(bytes).ok()
}

/// How many bytes of a message body its preview shows.
pub const PREVIEW_BYTES: usize = 120;

/// The preview of a message body: its text cut after 120 bytes, or, for a body that is not
/// text, its size as `<n bytes>`.
pub open spec fn body_preview_spec(body: Seq<u8>) -> Seq<char> {
    if valid_utf8(body) {
        truncated(decode_utf8(body), PREVIEW_BYTES as int)
    } else {
        "<"@ + decimal(body.len()) + " bytes>"@
    }
}

/// Shows a message body in a list of messages; where the body is text longer than 120 bytes,
/// the cut must fall between two characters.
pub fn body_preview(body: &[u8]) -> (r: String)
    requires
        valid_utf8(body@) ==> body@.len() <= PREVIEW_BYTES || is_char_boundary(body@, PREVIEW_BYTES as int),
    ensures
        r@ == body_preview_spec(body@),
{
    match utf8_text(body) {
        Some(text) => {
            proof {
                vstd::utf8::decode_utf8_encode_utf8(body@);
            }
            truncate_text(text, PREVIEW_BYTES)
        },
        None => {
            let mut out = String::new();
            let open = "<";
            let close = " bytes>";
            proof {
                reveal_strlit("<");
                reveal_strlit(" bytes>");
            }
            out.append(open);
            push_decimal(&mut out, body.len() as u64);
            out.append(close);
            proof {
                assert(out@ =~= body_preview_spec(body@));
            }
            out
        },
    }
}

/// The key under which a conversation's view state is kept: its kind, a colon and its
/// counterparty.
pub open spec fn convo_key_spec(convo: crate::client::convo::ConvoKey) -> Seq<char> {
    convo.kind_text() + ":"@ + convo.counterparty_text()
}

/// The key under which a conversation's view state is kept.
pub fn convo_key(convo_id: &crate::client::convo::ConvoId) -> (r: String)
    ensures
        r@ == convo_key_spec(convo_id@),
{
    let mut out = convo_id.convo_type().to_owned();
    let colon = ":";
    proof {
        reveal_strlit(":");
    }
    out.append(colon);
    let counterparty = convo_id.counterparty();
    out.append(counterparty.as_str());
    out
}

/// Flattens the answer of a client call made over a channel: the value, or the error of the
/// call, or the error of the channel, each error as its message.
pub fn flatten_rpc<T>(result: Result<Result<T, String>, String>) -> (r: Result<T, String>)
    ensures
        match result {
            Ok(Ok(v)) => r == Ok::<T, String>(v),
            Ok(Err(e)) => r matches Err(m) && m@ == e@,
            Err(e) => r matches Err(m) && m@ == e@,
        },
{
    match result {
        Ok(Ok(value)) => Ok(value),
        Ok(Err(err)) => Err(err),
        Err(err) => Err(err),
    }
}

/// The lowercase hexadecimal digits, in order.
pub open spec fn hex_alphabet() -> Seq<char> {
    seq!['0', '1', '2', '3', '4', '5', '6', '7', '8', '9', 'a', 'b', 'c', 'd', 'e', 'f']
}

/// The lowercase hexadecimal digit for `n`, below 16.
pub open spec fn hex_digit(n: u8) -> char {
    hex_alphabet()[n as int]
}

/// Two lowercase hexadecimal digits for a byte.
pub open spec fn hex_byte(b: u8) -> Seq<char> {
    seq![hex_digit(b / 16), hex_digit(b % 16)]
}

/// The first four bytes of a group id in lowercase hexadecimal, as groups are shown.
pub open spec fn short_group_id_spec(id: Seq<u8>) -> Seq<char> {
    hex_byte(id[0]) + hex_byte(id[1]) + hex_byte(id[2]) + hex_byte(id[3])
}

/// Appends the hexadecimal digit for `n` to `out`.
pub(crate) fn push_hex_digit(out: &mut String, n: u8)
    requires
        n < 16,
    ensures
        final(out)@ == old(out)@.push(hex_digit(n)),
{
    let digits = "0123456789abcdef";
    proof {
        reveal_strlit("0123456789abcdef");
    }
    let i = n as usize;
    let d = digits.substring_char(i, i + 1);
    proof {
        assert(digits@ =~= hex_alphabet());
        assert(d@ =~= seq![hex_digit(n)]);
    }
    out.append(d);
}

/// The first four bytes of a group id in lowercase hexadecimal, as groups are shown.
pub fn short_group_id(group: &crate::structs::group::GroupId) -> (r: String)
    ensures
        r@ == short_group_id_spec(group@),
{
    let bytes = group.as_bytes();
    let mut out = String::new();
    let mut i: usize = 0;
    while i < 4
        invariant
            0 <= i <= 4,
            bytes@ == group@,
            bytes@.len() == 32,
            out@ == (if i == 0 {
                Seq::<char>::empty()
            } else if i == 1 {
                hex_byte(bytes@[0])
            } else if i == 2 {
                hex_byte(bytes@[0]) + hex_byte(bytes@[1])
            } else if i == 3 {
                hex_byte(bytes@[0]) + hex_byte(bytes@[1]) + hex_byte(bytes@[2])
            } else {
                short_group_id_spec(bytes@)
            }),
        decreases 4 - i,
    {
        let b = bytes[i];
        push_hex_digit(&mut out, b / 16);
        push_hex_digit(&mut out, b % 16);
        proof {
            assert(out@ =~= (if i + 1 == 1 {
                hex_byte(bytes@[0])
            } else if i + 1 == 2 {
                hex_byte(bytes@[0]) + hex_byte(bytes@[1])
            } else if i + 1 == 3 {
                hex_byte(bytes@[0]) + hex_byte(bytes@[1]) + hex_byte(bytes@[2])
            } else {
                short_group_id_spec(bytes@)
            }));
        }
        i = i + 1;
    }
    out
}

} // verus!
