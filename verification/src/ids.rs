//! Canonical track identifiers and the base62 token codec.
//!
//! A track is named by a 128-bit value; its textual form is a base62 token
//! over the alphabet `0-9 a-z A-Z`, most significant digit first. Decoding
//! folds digits left to right and fails on any character outside the
//! alphabet, or when the accumulated value would not fit in 128 bits: a
//! token denotes a 128-bit value, so wider values are outside the codec.

use vstd::prelude::*;

verus! {

/// Canonical identifier of one track in the catalog. Equality is by the
/// decoded 128-bit value, so two tokens with the same value are the same
/// identifier.
#[derive(Clone, Copy, PartialEq, Eq, Structural, Debug, Hash)]
pub struct TrackId {
    pub id: u128,
}

/// Failure of the identifier codec: the token is not a valid base62 form.
#[derive(Clone, Copy, Debug)]
pub struct SpotifyIdError;

/// One more than the largest value an identifier can hold.
pub open spec fn id_value_limit() -> int {
    u128::MAX as int + 1
}

/// The characters admitted by the base62 alphabet.
pub open spec fn is_digit_char(c: char) -> bool {
    ('0' <= c && c <= '9') || ('a' <= c && c <= 'z') || ('A' <= c && c <= 'Z')
}

/// Value of one base62 digit: `0-9` then `a-z` then `A-Z`.
pub open spec fn digit_val(c: char) -> int {
    if '0' <= c && c <= '9' {
        c as int - '0' as int
    } else if 'a' <= c && c <= 'z' {
        10 + c as int - 'a' as int
    } else {
        36 + c as int - 'A' as int
    }
}

/// Value denoted by a base62 token, most significant digit first; `None` on
/// a character outside the alphabet or on a value of 128 bits or more.
pub open spec fn base62_decode(s: Seq<char>) -> Option<int>
    decreases s.len(),
{
    if s.len() == 0 {
        Some(0)
    } else {
        let c = s.last();
        match base62_decode(s.drop_last()) {
            Option::None => None,
            Option::Some(n) => {
                if is_digit_char(c) && n * 62 + digit_val(c) < id_value_limit() {
                    Some(n * 62 + digit_val(c))
                } else {
                    None
                }
            },
        }
    }
}

/// Once a prefix fails to decode, the whole token fails.
pub proof fn lemma_decode_none_prefix(s: Seq<char>, j: int)
    requires
        0 <= j <= s.len(),
        base62_decode(s.take(j)) is None,
    ensures
        base62_decode(s) is None,
    decreases s.len() - j,
{
    if j == s.len() {
        assert(s.take(j) =~= s);
    } else {
        assert(s.take(j + 1).drop_last() =~= s.take(j));
        assert(base62_decode(s.take(j + 1)) is None);
        lemma_decode_none_prefix(s, j + 1);
    }
}

/// Decode a base62 token into an identifier, as `base62_decode`
/// says: the token's value when it is well formed and fits in 128 bits,
/// and an error otherwise.
pub fn from_base62(s: &str) -> (r: Result<TrackId, SpotifyIdError>)
    ensures
        match r {
            Ok(t) => base62_decode(s@) == Some(t.id as int),
            Err(_) => base62_decode(s@) is None,
        },
{
    let len = s.unicode_len();
    let mut n: u128 = 0;
    let mut i: usize = 0;
    while i < len
        invariant
            0 <= i <= len,
            len == s@.len(),
            base62_decode(s@.take(i as int)) == Some(n as int),
        decreases len - i,
    {
        let c = s.get_char(i);
        proof {
            assert(s@.take(i + 1).drop_last() =~= s@.take(i as int));
            assert(s@.take(i + 1).last() == s@[i as int]);
        }
        let d: u128 = if '0' <= c && c <= '9' {
            (c as u32 - '0' as u32) as u128
        } else if 'a' <= c && c <= 'z' {
            (10 + (c as u32 - 'a' as u32)) as u128
        } else if 'A' <= c && c <= 'Z' {
            (36 + (c as u32 - 'A' as u32)) as u128
        } else {
            proof {
                assert(base62_decode(s@.take(i + 1)) is None);
                lemma_decode_none_prefix(s@, i + 1);
            }
            return Err(SpotifyIdError);
        };
        assert(d == digit_val(s@[i as int]) && d < 62);
        if n > (u128::MAX - d) / 62 {
            proof {
                vstd::arithmetic::div_mod::lemma_fundamental_div_mod(
                    (u128::MAX - d) as int,
                    62,
                );
                assert(n * 62 + d >= id_value_limit());
                assert(base62_decode(s@.take(i + 1)) is None);
                lemma_decode_none_prefix(s@, i + 1);
            }
            return Err(SpotifyIdError);
        }
        proof {
            vstd::arithmetic::div_mod::lemma_fundamental_div_mod((u128::MAX - d) as int, 62);
            assert(n * 62 + d <= u128::MAX);
        }
        n = n * 62 + d;
        i = i + 1;
    }
    proof {
        assert(s@.take(len as int) =~= s@);
    }
    Ok(TrackId { id: n })
}

/// ASCII byte of one base62 digit: `0-9` then `a-z` then `A-Z`.
pub open spec fn digit_byte(d: int) -> u8 {
    if d < 10 {
        (48 + d) as u8
    } else if d < 36 {
        (97 + d - 10) as u8
    } else {
        (65 + d - 36) as u8
    }
}

/// Character of one base62 digit.
pub open spec fn digit_char(d: int) -> char {
    digit_byte(d) as char
}

/// The last `k` base62 digits of `n`, most significant first.
pub open spec fn base62_encode_rec(n: int, k: nat) -> Seq<char>
    decreases k,
{
    if k == 0 {
        Seq::empty()
    } else {
        base62_encode_rec(n / 62, (k - 1) as nat).push(digit_char(n % 62))
    }
}

/// Canonical textual form of an identifier: exactly 22 base62 digits,
/// zero-padded on the left.
pub open spec fn base62_encode(n: int) -> Seq<char> {
    base62_encode_rec(n, 22)
}

/// ASCII byte of the base62 digit of value `d`.
fn digit_ascii(d: u8) -> (r: u8)
    requires
        d < 62,
    ensures
        r == digit_byte(d as int),
        r < 128,
{
    if d < 10 {
        48 + d
    } else if d < 36 {
        97 + d - 10
    } else {
        65 + d - 36
    }
}

/// Characters of the byte run `bytes[from..]`, one char per byte.
pub open spec fn bytes_as_chars(bytes: Seq<u8>, from: int) -> Seq<char> {
    bytes.skip(from).map_values(|b: u8| b as char)
}

/// Relies on `String::from_utf8`: bytes below 128 are valid UTF-8 and
/// decode to the characters with the same code points.
#[verifier::external_body]
fn ascii_bytes_to_string(bytes: Vec<u8>) -> (r: String)
    requires
        forall|i: int| 0 <= i < bytes@.len() ==> bytes@[i] < 128,
    ensures
        r@.len() == bytes@.len(),
        forall|i: int| 0 <= i < bytes@.len() ==> r@[i] == bytes@[i] as char,
{
    String::from_utf8(bytes).unwrap_or_default()
}

/// Encode an identifier into its canonical textual form, as
/// `base62_encode` says: 22 base62 digits, most significant first.
pub fn to_base62(t: TrackId) -> (r: String)
    ensures
        r@ == base62_encode(t.id as int),
        r@.len() == 22,
{
    let ghost n0 = t.id as int;
    let mut buf: Vec<u8> = vec![0u8; 22];
    let mut n: u128 = t.id;
    let mut i: usize = 0;
    proof {
        assert(bytes_as_chars(buf@, 22) =~= Seq::<char>::empty());
    }
    while i < 22
        invariant
            0 <= i <= 22,
            buf@.len() == 22,
            forall|j: int| 22 - i <= j < 22 ==> buf@[j] < 128,
            base62_encode_rec(n0, 22) == base62_encode_rec(n as int, (22 - i) as nat)
                + bytes_as_chars(buf@, 22 - i),
        decreases 22 - i,
    {
        let ghost n_pre = n as int;
        let ghost buf_pre = buf@;
        let d: u8 = (n % 62) as u8;
        let b = digit_ascii(d);
        buf.set(21 - i, b);
        n = n / 62;
        proof {
            assert(base62_encode_rec(n_pre, (22 - i) as nat) == base62_encode_rec(
                n_pre / 62,
                (21 - i) as nat,
            ).push(digit_char(n_pre % 62)));
            assert(bytes_as_chars(buf@, 22 - (i + 1)) =~= seq![digit_char(n_pre % 62)]
                + bytes_as_chars(buf_pre, 22 - i));
            assert(base62_encode_rec(n_pre / 62, (21 - i) as nat).push(digit_char(n_pre % 62))
                + bytes_as_chars(buf_pre, 22 - i) =~= base62_encode_rec(
                n_pre / 62,
                (21 - i) as nat,
            ) + bytes_as_chars(buf@, 22 - (i + 1)));
        }
        i = i + 1;
    }
    let r = ascii_bytes_to_string(buf);
    proof {
        assert(base62_encode_rec(n as int, 0) =~= Seq::<char>::empty());
        assert(r@ =~= bytes_as_chars(buf@, 0));
        assert(base62_encode(n0) =~= base62_encode_rec(n as int, 0) + bytes_as_chars(buf@, 0));
    }
    r
}

/// Each base62 digit decodes back to its value.
proof fn lemma_digit_round_trip(d: int)
    requires
        0 <= d < 62,
    ensures
        is_digit_char(digit_char(d)),
        digit_val(digit_char(d)) == d,
{
}

/// Decoding inverts encoding digit by digit: the canonical form of a
/// value below `62^k` in `k` digits decodes to that value.
proof fn lemma_encode_rec_decodes(n: int, k: nat)
    requires
        0 <= n,
        n < vstd::arithmetic::power::pow(62, k),
        n < id_value_limit(),
    ensures
        base62_decode(base62_encode_rec(n, k)) == Some(n),
    decreases k,
{
    reveal(vstd::arithmetic::power::pow);
    if k == 0 {
        assert(vstd::arithmetic::power::pow(62, 0) == 1);
    } else {
        let m = n / 62;
        let d = n % 62;
        vstd::arithmetic::div_mod::lemma_fundamental_div_mod(n, 62);
        assert(vstd::arithmetic::power::pow(62, k) == 62 * vstd::arithmetic::power::pow(
            62,
            (k - 1) as nat,
        ));
        assert(m < vstd::arithmetic::power::pow(62, (k - 1) as nat)) by {
            if m >= vstd::arithmetic::power::pow(62, (k - 1) as nat) {
                assert(62 * m >= 62 * vstd::arithmetic::power::pow(62, (k - 1) as nat));
            }
        }
        lemma_encode_rec_decodes(m, (k - 1) as nat);
        lemma_digit_round_trip(d);
        let s = base62_encode_rec(m, (k - 1) as nat);
        let c = digit_char(d);
        assert(base62_encode_rec(n, k) == s.push(c));
        assert(s.push(c).drop_last() =~= s);
        assert(s.push(c).last() == c);
        assert(base62_decode(s.push(c)) == Some(m * 62 + d));
    }
}

/// The codec round trip: every identifier's canonical textual form
/// decodes back to the same identifier, which is what makes the name
/// embedded in an output file unique to its track.
pub proof fn lemma_encode_decode_round_trip(t: TrackId)
    ensures
        base62_decode(base62_encode(t.id as int)) == Some(t.id as int),
{
    let n = t.id as int;
    assert(vstd::arithmetic::power::pow(62, 11) == 52036560683837093888) by {
        reveal_with_fuel(vstd::arithmetic::power::pow, 12);
    }
    vstd::arithmetic::power::lemma_pow_adds(62, 11, 11);
    assert(n < vstd::arithmetic::power::pow(62, 22));
    lemma_encode_rec_decodes(n, 22);
}

} // verus!
