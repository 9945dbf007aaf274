//! Text of the game files: the legacy Korean code page that names and cells
//! are stored in, and decimal integers as the tables write them.
use vstd::prelude::*;
use vstd::utf8::*;

verus! {

/// What EUC-KR decoding (without byte-order-mark sniffing) makes of `bytes`.
pub uninterp spec fn euc_kr_decoded(bytes: Seq<u8>) -> Seq<char>;

/// What UTF-16LE decoding (without byte-order-mark sniffing) makes of `bytes`.
pub uninterp spec fn utf16le_decoded(bytes: Seq<u8>) -> Seq<char>;

/// The EUC-KR bytes that encode `chars`.
pub uninterp spec fn euc_kr_encoded(chars: Seq<char>) -> Seq<u8>;

/// Every byte is in the ASCII range.
pub open spec fn ascii_bytes(bytes: Seq<u8>) -> bool {
    forall|i: int| 0 <= i < bytes.len() ==> #[trigger] bytes[i] < 128
}

/// The characters that ASCII bytes stand for, one per byte.
pub open spec fn ascii_chars_of(bytes: Seq<u8>) -> Seq<char> {
    Seq::new(bytes.len(), |i: int| bytes[i] as char)
}

/// Decodes `bytes` as EUC-KR with `encoding_rs::EUC_KR.decode_without_bom_handling`.
/// Claimed: the result is the named decoding of the bytes, and ASCII-only input
/// comes back character for character (the crate borrows such input unchanged).
/// Malformed sequences become U+FFFD; which characters other bytes give is left
/// to the name.
#[verifier::external_body]
pub(crate) fn decode_euc_kr(bytes: &[u8]) -> (s: String)
    requires
        bytes@.len() <= 0xffff,
    ensures
        s@ == euc_kr_decoded(bytes@),
        ascii_bytes(bytes@) ==> s@ == ascii_chars_of(bytes@),
{
    encoding_rs::EUC_KR.decode_without_bom_handling(bytes).0.into_owned()
}

/// Decodes `bytes` as UTF-16LE with `encoding_rs::UTF_16LE.decode_without_bom_handling`.
/// Claimed: the result is the named decoding of the bytes; nothing more is stated.
#[verifier::external_body]
pub(crate) fn decode_utf16le(bytes: &[u8]) -> (s: String)
    requires
        bytes@.len() <= 0xffff,
    ensures
        s@ == utf16le_decoded(bytes@),
{
    encoding_rs::UTF_16LE.decode_without_bom_handling(bytes).0.into_owned()
}

/// Encodes `s` as EUC-KR with `encoding_rs::EUC_KR.encode`.
/// Claimed: the result is the named encoding of the characters, and an ASCII
/// string comes back as its own bytes (the crate borrows such input unchanged).
/// Unmappable characters become HTML decimal references; that is left to the name.
#[verifier::external_body]
pub(crate) fn encode_euc_kr(s: &str) -> (b: Vec<u8>)
    requires
        encode_utf8(s@).len() <= 0x1000_0000,
    ensures
        b@ == euc_kr_encoded(s@),
        is_ascii_chars(s@) ==> b@ == encode_utf8(s@),
{
    encoding_rs::EUC_KR.encode(s).0.into_owned()
}

/// True when `b` is an ASCII decimal digit.
pub open spec fn is_digit(b: u8) -> bool {
    48 <= b <= 57
}

/// Every byte is a decimal digit.
pub open spec fn all_digits(d: Seq<u8>) -> bool {
    forall|i: int| 0 <= i < d.len() ==> is_digit(#[trigger] d[i])
}

/// The decimal value of a run of digit bytes.
pub open spec fn digits_value(d: Seq<u8>) -> int
    decreases d.len(),
{
    if d.len() == 0 {
        0
    } else {
        10 * digits_value(d.drop_last()) + (d.last() - 48)
    }
}

/// What `str::parse::<i32>` gives for the UTF-8 bytes `b`: an optional `+` or
/// `-`, then at least one decimal digit and nothing else, whose value fits in
/// an `i32`.
pub open spec fn parse_i32_bytes(b: Seq<u8>) -> Option<i32> {
    if b.len() == 0 {
        None
    } else {
        let neg = b[0] == 45;
        let d = if b[0] == 43 || b[0] == 45 {
            b.drop_first()
        } else {
            b
        };
        if d.len() == 0 || !all_digits(d) {
            None
        } else {
            let v = if neg {
                -digits_value(d)
            } else {
                digits_value(d)
            };
            if i32::MIN <= v <= i32::MAX {
                Some(v as i32)
            } else {
                None
            }
        }
    }
}

/// What `str::parse::<i32>` gives for the characters `s`.
pub open spec fn parse_i32_spec(s: Seq<char>) -> Option<i32> {
    parse_i32_bytes(encode_utf8(s))
}

proof fn lemma_digits_value_nonneg(d: Seq<u8>)
    requires
        all_digits(d),
    ensures
        digits_value(d) >= 0,
    decreases d.len(),
{
    if d.len() > 0 {
        lemma_digits_value_nonneg(d.drop_last());
    }
}

/// Parses a decimal `i32` the way `str::parse::<i32>` does.
pub fn parse_i32(s: &str) -> (r: Option<i32>)
    ensures
        r == parse_i32_spec(s@),
{
    let b = s.as_bytes();
    let n = b.len();
    if n == 0 {
        return None;
    }
    let neg = b[0] == 45u8;
    let start: usize = if b[0] == 43u8 || b[0] == 45u8 {
        1
    } else {
        0
    };
    if start == n {
        return None;
    }
    let ghost d = b@.subrange(start as int, n as int);
    assert(start == 1 ==> d =~= b@.drop_first());
    assert(start == 0 ==> d =~= b@);
    let mut acc: i64 = 0;
    let mut too_big = false;
    let mut i = start;
    while i < n
        invariant
            start <= i <= n,
            n == b@.len(),
            b@ == encode_utf8(s@),
            neg == (b@[0] == 45),
            d == b@.subrange(start as int, n as int),
            start == 1 ==> d =~= b@.drop_first(),
            start == 0 ==> d =~= b@,
            start == 1 <==> (b@[0] == 43 || b@[0] == 45),
            forall|k: int| start <= k < i ==> is_digit(#[trigger] b@[k]),
            !too_big ==> 0 <= acc <= 0x8000_0000 && acc == digits_value(
                b@.subrange(start as int, i as int),
            ),
            too_big ==> digits_value(b@.subrange(start as int, i as int)) > 0x8000_0000,
        decreases n - i,
    {
        let c = b[i];
        if !(48u8 <= c && c <= 57u8) {
            assert(d[i - start] == c);
            assert(!is_digit(d[i - start]));
            assert(!all_digits(d));
            return None;
        }
        let ghost pre = b@.subrange(start as int, i as int);
        let ghost nxt = b@.subrange(start as int, i + 1);
        assert(nxt.drop_last() =~= pre);
        assert(all_digits(pre));
        proof {
            lemma_digits_value_nonneg(pre);
        }
        if !too_big {
            let next = acc * 10 + (c - 48u8) as i64;
            if next > 0x8000_0000 {
                too_big = true;
            } else {
                acc = next;
            }
        }
        i = i + 1;
    }
    assert(b@.subrange(start as int, n as int) =~= d);
    assert(all_digits(d)) by {
        assert forall|k: int| 0 <= k < d.len() implies is_digit(#[trigger] d[k]) by {
            assert(d[k] == b@[start + k]);
        }
    }
    assert(start == 1 ==> d =~= b@.drop_first());
    assert(start == 0 ==> d =~= b@);
    if too_big {
        return None;
    }
    if neg {
        Some((0 - acc) as i32)
    } else if acc > 0x7fff_ffff {
        None
    } else {
        Some(acc as i32)
    }
}

/// Reading a slice as text: bytes are compared with `==` on chars only through
/// their UTF-8 encoding, which is one-to-one.
pub proof fn lemma_encode_utf8_injective(a: Seq<char>, b: Seq<char>)
    requires
        encode_utf8(a) == encode_utf8(b),
    ensures
        a == b,
{
    encode_utf8_decode_utf8(a);
    encode_utf8_decode_utf8(b);
}

} // verus!
