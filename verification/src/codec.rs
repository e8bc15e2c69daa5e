//! Tagged-hex digests: `sha256:` followed by 64 lowercase hex digits.

use vstd::prelude::*;
use vstd::string::*;
use vstd::utf8::*;

verus! {

/// The characters every tag starts with.
pub open spec fn tag_prefix() -> Seq<char> {
    seq!['s', 'h', 'a', '2', '5', '6', ':']
}

/// Lowercase hexadecimal digits; uppercase letters are not digits of a tag.
pub open spec fn is_hex_digit(c: char) -> bool {
    ('0' <= c && c <= '9') || ('a' <= c && c <= 'f')
}

/// The number a hex digit stands for.
pub open spec fn hex_digit_value(c: char) -> int
    recommends
        is_hex_digit(c),
{
    if '0' <= c && c <= '9' {
        c as int - '0' as int
    } else {
        c as int - 'a' as int + 10
    }
}

/// The digit that stands for a number below sixteen.
pub open spec fn hex_digit(n: int) -> char
    recommends
        0 <= n < 16,
{
    if n < 10 {
        ('0' as int + n) as char
    } else {
        ('a' as int + n - 10) as char
    }
}

/// A well-formed tag: exactly the prefix followed by 64 lowercase hex digits.
pub open spec fn is_sha_tag(tag: Seq<char>) -> bool {
    &&& tag.len() == 71
    &&& tag.subrange(0, 7) == tag_prefix()
    &&& forall|i: int| 7 <= i < 71 ==> is_hex_digit(#[trigger] tag[i])
}

/// The digest a well-formed tag names: byte `i` is written by the two digits
/// at positions `7 + 2i` and `8 + 2i`, high nibble first.
pub open spec fn tag_digest(tag: Seq<char>) -> Seq<u8> {
    Seq::new(
        32,
        |i: int| (16 * hex_digit_value(tag[7 + 2 * i]) + hex_digit_value(tag[8 + 2 * i])) as u8,
    )
}

/// The two-digits-per-byte lowercase rendering of a byte string.
pub open spec fn hex_digits(bytes: Seq<u8>) -> Seq<char> {
    Seq::new(
        2 * bytes.len(),
        |i: int|
            if i % 2 == 0 {
                hex_digit(bytes[i / 2] as int / 16)
            } else {
                hex_digit(bytes[i / 2] as int % 16)
            },
    )
}

/// The tag that names a digest.
pub open spec fn digest_tag(bytes: Seq<u8>) -> Seq<char> {
    tag_prefix() + hex_digits(bytes)
}

/// Whether a tag has the outer shape of a digest tag: its UTF-8 encoding is
/// 71 bytes long and starts with the prefix. What follows the prefix is not
/// looked at.
pub open spec fn is_framed(tag: Seq<char>) -> bool {
    let raw = encode_utf8(tag);
    &&& raw.len() == 71
    &&& forall|i: int| 0 <= i < 7 ==> #[trigger] raw[i] == tag_prefix()[i] as u8
}

/// The message that rejects a malformed tag. It names the tag, and tells a
/// tag with the wrong shape from one with the right shape and bad digits.
pub open spec fn decode_error(tag: Seq<char>) -> Seq<char> {
    if is_framed(tag) {
        "bad hex in sha tag: "@ + tag
    } else {
        "bad sha tag: "@ + tag
    }
}

/// A well-formed tag is ASCII, so its UTF-8 bytes are its characters.
pub proof fn lemma_sha_tag_is_framed(tag: Seq<char>)
    requires
        is_sha_tag(tag),
    ensures
        is_ascii_chars(tag),
        is_framed(tag),
{
    assert forall|i: int| 0 <= i < tag.len() implies '\0' <= #[trigger] tag[i] && tag[i]
        <= '\u{7f}' by {
        if i < 7 {
            assert(tag[i] == tag.subrange(0, 7)[i]);
        }
    }
    is_ascii_chars_encode_utf8(tag);
    assert forall|i: int| 0 <= i < 7 implies #[trigger] encode_utf8(tag)[i] == tag_prefix()[i]
        as u8 by {
        assert(tag[i] == tag.subrange(0, 7)[i]);
    }
}

/// Decoding undoes encoding: every 32-byte digest has a well-formed tag, and
/// that tag names the digest it was made from.
pub proof fn lemma_decode_encode(bytes: Seq<u8>)
    requires
        bytes.len() == 32,
    ensures
        is_sha_tag(digest_tag(bytes)),
        tag_digest(digest_tag(bytes)) == bytes,
{
    let tag = digest_tag(bytes);
    assert(tag.subrange(0, 7) =~= tag_prefix());
    assert forall|i: int| 7 <= i < 71 implies is_hex_digit(#[trigger] tag[i]) by {
        assert(tag[i] == hex_digits(bytes)[i - 7]);
    }
    assert forall|k: int| 0 <= k < 32 implies tag_digest(tag)[k] == bytes[k] by {
        assert(tag[7 + 2 * k] == hex_digits(bytes)[2 * k]);
        assert(tag[8 + 2 * k] == hex_digits(bytes)[2 * k + 1]);
    }
    assert(tag_digest(tag) =~= bytes);
}

/// Encoding undoes decoding: a well-formed tag is the one canonical
/// rendering of the digest it names.
pub proof fn lemma_encode_decode(tag: Seq<char>)
    requires
        is_sha_tag(tag),
    ensures
        digest_tag(tag_digest(tag)) == tag,
{
    let bytes = tag_digest(tag);
    let again = digest_tag(bytes);
    assert forall|i: int| 0 <= i < 71 implies again[i] == tag[i] by {
        if i < 7 {
            assert(tag[i] == tag.subrange(0, 7)[i]);
        } else {
            let k = (i - 7) / 2;
            assert(again[i] == hex_digits(bytes)[i - 7]);
            assert(is_hex_digit(tag[7 + 2 * k]));
            assert(is_hex_digit(tag[8 + 2 * k]));
        }
    }
    assert(again =~= tag);
}

/// Distinct byte strings never share a tag, whatever their length.
pub proof fn lemma_digest_tag_injective(a: Seq<u8>, b: Seq<u8>)
    requires
        digest_tag(a) == digest_tag(b),
    ensures
        a == b,
{
    assert(digest_tag(a).len() == 7 + 2 * a.len());
    assert(digest_tag(b).len() == 7 + 2 * b.len());
    assert forall|k: int| 0 <= k < a.len() implies a[k] == b[k] by {
        assert(digest_tag(a)[7 + 2 * k] == hex_digits(a)[2 * k]);
        assert(digest_tag(b)[7 + 2 * k] == hex_digits(b)[2 * k]);
        assert(digest_tag(a)[8 + 2 * k] == hex_digits(a)[2 * k + 1]);
        assert(digest_tag(b)[8 + 2 * k] == hex_digits(b)[2 * k + 1]);
    }
    assert(a =~= b);
}

/// Distinct well-formed tags name distinct digests.
pub proof fn lemma_tag_digest_injective(s: Seq<char>, t: Seq<char>)
    requires
        is_sha_tag(s),
        is_sha_tag(t),
        tag_digest(s) == tag_digest(t),
    ensures
        s == t,
{
    lemma_encode_decode(s);
    lemma_encode_decode(t);
}

/// Reads one lowercase hex digit given as an ASCII byte.
fn hex_value(b: u8) -> (v: Option<u8>)
    ensures
        v is Some <==> is_hex_digit(b as char),
        v matches Some(n) ==> n as int == hex_digit_value(b as char) && n < 16,
{
    if ('0' as u8) <= b && b <= ('9' as u8) {
        Some(b - ('0' as u8))
    } else if ('a' as u8) <= b && b <= ('f' as u8) {
        Some(b - ('a' as u8) + 10)
    } else {
        None
    }
}

/// The text of one hex digit.
fn hex_digit_text(n: u8) -> (s: &'static str)
    requires
        n < 16,
    ensures
        s@ == seq![hex_digit(n as int)],
{
    proof {
        reveal_strlit("0");
        reveal_strlit("1");
        reveal_strlit("2");
        reveal_strlit("3");
        reveal_strlit("4");
        reveal_strlit("5");
        reveal_strlit("6");
        reveal_strlit("7");
        reveal_strlit("8");
        reveal_strlit("9");
        reveal_strlit("a");
        reveal_strlit("b");
        reveal_strlit("c");
        reveal_strlit("d");
        reveal_strlit("e");
        reveal_strlit("f");
    }
    let s = match n {
        0 => "0",
        1 => "1",
        2 => "2",
        3 => "3",
        4 => "4",
        5 => "5",
        6 => "6",
        7 => "7",
        8 => "8",
        9 => "9",
        10 => "a",
        11 => "b",
        12 => "c",
        13 => "d",
        14 => "e",
        _ => "f",
    };
    assert(s@ =~= seq![hex_digit(n as int)]);
    s
}

/// Renders a digest as its tag. Always succeeds; the output is lowercase and
/// zero-padded, so equal digests give equal tags.
pub fn bytes_to_sha_tag(bytes: &[u8; 32]) -> (tag: String)
    ensures
        tag@ == digest_tag(bytes@),
{
    let mut tag = String::from_str("sha256:");
    proof {
        reveal_strlit("sha256:");
        assert(tag@ =~= tag_prefix() + hex_digits(bytes@.subrange(0, 0)));
    }
    let mut i: usize = 0;
    while i < 32
        invariant
            i <= 32,
            tag@ == tag_prefix() + hex_digits(bytes@.subrange(0, i as int)),
        decreases 32 - i,
    {
        let b: u8 = bytes[i];
        let ghost before = tag@;
        tag.append(hex_digit_text(b / 16));
        tag.append(hex_digit_text(b % 16));
        proof {
            let shorter = bytes@.subrange(0, i as int);
            let longer = bytes@.subrange(0, i as int + 1);
            assert(hex_digits(longer) =~= hex_digits(shorter) + seq![hex_digit(b as int / 16)]
                + seq![hex_digit(b as int % 16)]);
            assert(tag@ =~= tag_prefix() + hex_digits(longer));
        }
        i += 1;
    }
    proof {
        assert(bytes@.subrange(0, 32) =~= bytes@);
    }
    tag
}

/// Whether the first seven bytes spell `sha256:`.
fn starts_with_prefix(raw: &[u8]) -> (yes: bool)
    requires
        raw@.len() >= 7,
    ensures
        yes <==> forall|i: int| 0 <= i < 7 ==> #[trigger] raw@[i] == tag_prefix()[i] as u8,
{
    let yes = raw[0] == ('s' as u8) && raw[1] == ('h' as u8) && raw[2] == ('a' as u8) && raw[3]
        == ('2' as u8) && raw[4] == ('5' as u8) && raw[5] == ('6' as u8) && raw[6] == (':' as u8);
    proof {
        if !yes {
            assert(raw@[0] == tag_prefix()[0] as u8 ==> raw@[0] == 's' as u8);
            assert(raw@[1] == tag_prefix()[1] as u8 ==> raw@[1] == 'h' as u8);
            assert(raw@[2] == tag_prefix()[2] as u8 ==> raw@[2] == 'a' as u8);
            assert(raw@[3] == tag_prefix()[3] as u8 ==> raw@[3] == '2' as u8);
            assert(raw@[4] == tag_prefix()[4] as u8 ==> raw@[4] == '5' as u8);
            assert(raw@[5] == tag_prefix()[5] as u8 ==> raw@[5] == '6' as u8);
            assert(raw@[6] == tag_prefix()[6] as u8 ==> raw@[6] == ':' as u8);
        }
    }
    yes
}

/// The rejection message for a tag of the wrong shape.
fn bad_tag_message(tag: &str) -> (msg: String)
    ensures
        msg@ == "bad sha tag: "@ + tag@,
{
    let mut msg = String::from_str("bad sha tag: ");
    msg.append(tag);
    msg
}

/// The rejection message for a tag of the right shape with bad digits.
fn bad_hex_message(tag: &str) -> (msg: String)
    ensures
        msg@ == "bad hex in sha tag: "@ + tag@,
{
    let mut msg = String::from_str("bad hex in sha tag: ");
    msg.append(tag);
    msg
}

/// Reads the digest out of a tag.
///
/// Succeeds exactly on well-formed tags. Any other input is rejected with a
/// message naming it; nothing is repaired, and uppercase digits are not
/// accepted.
pub fn sha_tag_to_bytes(tag: &str) -> (res: Result<[u8; 32], String>)
    ensures
        res is Ok <==> is_sha_tag(tag@),
        res matches Ok(bytes) ==> bytes@ == tag_digest(tag@),
        res matches Err(msg) ==> msg@ == decode_error(tag@),
{
    let raw = tag.as_bytes();
    if raw.len() != 71 || !starts_with_prefix(raw) {
        proof {
            if is_sha_tag(tag@) {
                lemma_sha_tag_is_framed(tag@);
            }
        }
        return Err(bad_tag_message(tag));
    }
    if !tag.is_ascii() {
        proof {
            if is_sha_tag(tag@) {
                lemma_sha_tag_is_framed(tag@);
            }
        }
        return Err(bad_hex_message(tag));
    }
    proof {
        is_ascii_chars_encode_utf8(tag@);
    }
    let mut out = [0u8; 32];
    let mut i: usize = 0;
    while i < 32
        invariant
            i <= 32,
            raw@ == encode_utf8(tag@),
            raw@.len() == 71,
            tag@.len() == 71,
            is_ascii_chars(tag@),
            is_framed(tag@),
            forall|k: int| 0 <= k < 71 ==> tag@[k] as u8 == #[trigger] raw@[k],
            forall|k: int| 7 <= k < 7 + 2 * i ==> is_hex_digit(#[trigger] tag@[k]),
            forall|k: int| 0 <= k < i ==> #[trigger] out@[k] == tag_digest(tag@)[k],
        decreases 32 - i,
    {
        let hi = hex_value(raw[7 + 2 * i]);
        let lo = hex_value(raw[8 + 2 * i]);
        proof {
            assert(raw@[7 + 2 * i] as char == tag@[7 + 2 * i]);
            assert(raw@[8 + 2 * i] as char == tag@[8 + 2 * i]);
        }
        match (hi, lo) {
            (Some(h), Some(l)) => {
                out[i] = h * 16 + l;
            },
            _ => {
                return Err(bad_hex_message(tag));
            },
        }
        i += 1;
    }
    proof {
        assert forall|k: int| 0 <= k < 7 implies tag@[k] == tag_prefix()[k] by {
            assert(tag@[k] as u8 == raw@[k]);
        }
        assert(tag@.subrange(0, 7) =~= tag_prefix());
        assert(out@ =~= tag_digest(tag@));
    }
    Ok(out)
}

} // verus!
