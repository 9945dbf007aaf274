//! STB tables: a grid of text cells with named rows and columns, as stored in
//! the game's `3DDATA/STB/*.STB` files.
use vstd::prelude::*;
use vstd::utf8::*;
use vstd::string::*;

use crate::bytes::{le_u16, le_u32, lemma_le_u16_at, lemma_le_u32_at, push_u16_le, push_u32_le, read_u16_le, read_u32_le, u16_le_bytes, u32_le_bytes};
use crate::text::{
    ascii_bytes, ascii_chars_of, decode_euc_kr, encode_euc_kr, parse_i32, parse_i32_spec, decode_utf16le, euc_kr_decoded, euc_kr_encoded,
    utf16le_decoded,
};

verus! {

// ---------------------------------------------------------------- text layout

/// The characters that the raw bytes of a string stand for: ASCII bytes are
/// themselves, anything else goes through the named decoding (UTF-16LE for
/// wide tables, EUC-KR otherwise).
pub open spec fn decode_text(raw: Seq<u8>, wide: bool) -> Seq<char> {
    if wide {
        utf16le_decoded(raw)
    } else if ascii_bytes(raw) {
        ascii_chars_of(raw)
    } else {
        euc_kr_decoded(raw)
    }
}

/// The bytes written for a string: ASCII text is its own bytes, anything else
/// goes through the named EUC-KR encoding.
pub open spec fn encode_text(s: Seq<char>) -> Seq<u8> {
    if is_ascii_chars(s) {
        encode_utf8(s)
    } else {
        euc_kr_encoded(s)
    }
}

/// The bytes of `x` up to (not including) the first NUL byte.
pub open spec fn until_nul(x: Seq<u8>) -> Seq<u8>
    decreases x.len(),
{
    if x.len() == 0 {
        x
    } else if x[0] == 0 {
        Seq::<u8>::empty()
    } else {
        seq![x[0]] + until_nul(x.drop_first())
    }
}

/// The raw text of the `u16`-length-prefixed string at `pos`, cut at its first
/// NUL byte, and the position after it.
pub open spec fn u16_str_at(b: Seq<u8>, pos: int) -> Option<(Seq<u8>, int)> {
    if 0 <= pos && pos + 2 <= b.len() && pos + 2 + le_u16(b, pos) <= b.len() {
        let end = pos + 2 + le_u16(b, pos);
        Some((until_nul(b.subrange(pos + 2, end)), end))
    } else {
        None
    }
}

/// `n` consecutive length-prefixed strings starting at `pos`: their raw text
/// and the position after the last one.
pub open spec fn strs_at(b: Seq<u8>, pos: int, n: nat) -> Option<(Seq<Seq<u8>>, int)>
    decreases n,
{
    if n == 0 {
        Some((Seq::<Seq<u8>>::empty(), pos))
    } else {
        match strs_at(b, pos, (n - 1) as nat) {
            Some((v, p)) => match u16_str_at(b, p) {
                Some((s, q)) => Some((v.push(s), q)),
                None => None,
            },
            None => None,
        }
    }
}

/// Decodes each raw string.
pub open spec fn decode_all(v: Seq<Seq<u8>>, wide: bool) -> Seq<Seq<char>> {
    Seq::new(v.len(), |i: int| decode_text(v[i], wide))
}

/// The characters of each string.
pub open spec fn string_views(v: Seq<String>) -> Seq<Seq<char>> {
    Seq::new(v.len(), |i: int| v[i]@)
}

pub(crate) proof fn lemma_until_nul_prefix(x: Seq<u8>, k: int)
    requires
        0 <= k <= x.len(),
        forall|j: int| 0 <= j < k ==> #[trigger] x[j] != 0,
        k == x.len() || x[k] == 0,
    ensures
        until_nul(x) =~= x.take(k),
    decreases x.len(),
{
    if x.len() > 0 && k > 0 {
        let y = x.drop_first();
        assert forall|j: int| 0 <= j < k - 1 implies #[trigger] y[j] != 0 by {
            assert(y[j] == x[j + 1]);
        }
        lemma_until_nul_prefix(y, k - 1);
        assert(x.take(k) =~= seq![x[0]] + y.take(k - 1));
    }
}

/// Decodes the `len` raw bytes at `start`, cut at their first NUL byte.
pub(crate) fn decode_cut(b: &[u8], start: usize, len: usize, wide: bool) -> (s: String)
    requires
        start + len <= b@.len(),
        len <= 0xffff,
    ensures
        s@ == decode_text(until_nul(b@.subrange(start as int, start + len)), wide),
{
    let total = b.len();
    assert(start + len <= total);
    let end = start + len;
    let mut k: usize = 0;
    while k < len && b[start + k] != 0
        invariant
            start + len == end <= b@.len(),
            k <= len,
            forall|j: int| start <= j < start + k ==> #[trigger] b@[j] != 0,
        decreases len - k,
    {
        k = k + 1;
    }
    let ghost x = b@.subrange(start as int, end as int);
    proof {
        assert forall|j: int| 0 <= j < k implies #[trigger] x[j] != 0 by {
            assert(x[j] == b@[start + j]);
        }
        lemma_until_nul_prefix(x, k as int);
    }
    let raw = &b[start..start + k];
    assert(raw@ =~= until_nul(x));
    if wide {
        decode_utf16le(raw)
    } else {
        decode_euc_kr(raw)
    }
}

/// Reads the length-prefixed string at `pos`.
fn read_u16_string(b: &[u8], pos: usize, wide: bool) -> (r: Option<(String, usize)>)
    requires
        pos <= b@.len(),
    ensures
        match u16_str_at(b@, pos as int) {
            None => r is None,
            Some((raw, next)) => r matches Some((s, p)) && s@ == decode_text(raw, wide) && p
                == next,
        },
{
    if b.len() - pos < 2 {
        return None;
    }
    let len = read_u16_le(b, pos) as usize;
    if b.len() - pos - 2 < len {
        return None;
    }
    let start = pos + 2;
    let end = start + len;
    let s = decode_cut(b, start, len, wide);
    Some((s, end))
}

/// Reads `n` consecutive length-prefixed strings.
fn read_u16_strings(b: &[u8], pos: usize, n: u64, wide: bool) -> (r: Option<(Vec<String>, usize)>)
    requires
        pos <= b@.len(),
    ensures
        match strs_at(b@, pos as int, n as nat) {
            None => r is None,
            Some((raw, next)) => r matches Some((v, p)) && string_views(v@) == decode_all(
                raw,
                wide,
            ) && p == next,
        },
{
    let mut out: Vec<String> = Vec::new();
    let mut p = pos;
    let mut i: u64 = 0;
    while i < n
        invariant
            i <= n,
            p <= b@.len(),
            out@.len() == i,
            strs_at(b@, pos as int, i as nat) matches Some((raw, q)) && q == p
                && string_views(out@) == decode_all(raw, wide),
        decreases n - i,
    {
        let ghost prev = strs_at(b@, pos as int, i as nat).unwrap().0;
        let ghost old_p = p;
        match read_u16_string(b, p, wide) {
            Some((s, q)) => {
                let ghost old_out = out@;
                out.push(s);
                p = q;
                proof {
                    let raw = strs_at(b@, pos as int, (i + 1) as nat).unwrap().0;
                    assert(raw == prev.push(u16_str_at(b@, old_p as int).unwrap().0)) by {
                        reveal_with_fuel(strs_at, 2);
                    }
                    assert(string_views(old_out) == decode_all(prev, wide));
                    assert(old_out.len() == i);
                    assert(string_views(old_out).len() == old_out.len());
                    assert(decode_all(prev, wide).len() == prev.len());
                    assert(prev.len() == i);
                    assert(raw.len() == i + 1);
                    assert(out@.len() == i + 1);
                    assert(out@[i as int]@ == decode_all(raw, wide)[i as int]);
                    assert forall|j: int| 0 <= j < out@.len() implies string_views(out@)[j]
                        == decode_all(raw, wide)[j] by {
                        if j < i {
                            assert(out@[j] == old_out[j]);
                            assert(string_views(old_out)[j] == decode_all(prev, wide)[j]);
                        }
                    }
                    assert(string_views(out@) =~= decode_all(raw, wide));
                }
            },
            None => {
                proof {
                    reveal_with_fuel(strs_at, 2);
                }
                assert(strs_at(b@, pos as int, n as nat) is None) by {
                    lemma_strs_at_none_extends(b@, pos as int, (i + 1) as nat, n as nat);
                }
                return None;
            },
        }
        i = i + 1;
    }
    Some((out, p))
}

proof fn lemma_strs_at_none_extends(b: Seq<u8>, pos: int, i: nat, n: nat)
    requires
        i <= n,
        strs_at(b, pos, i) is None,
    ensures
        strs_at(b, pos, n) is None,
    decreases n - i,
{
    if i < n {
        lemma_strs_at_none_extends(b, pos, (i + 1) as nat, n);
        assert(strs_at(b, pos, (i + 1) as nat) is None);
    }
}


/// The bytes written for a string: its `u16` byte length, then its bytes.
pub open spec fn enc_str(s: Seq<char>) -> Seq<u8> {
    u16_le_bytes(encode_text(s).len() as u16) + encode_text(s)
}

/// The bytes written for strings one after another.
pub open spec fn enc_strs(v: Seq<Seq<char>>) -> Seq<u8>
    decreases v.len(),
{
    if v.len() == 0 {
        Seq::<u8>::empty()
    } else {
        enc_strs(v.drop_last()) + enc_str(v.last())
    }
}

/// A string can be written: its encoding fits a 16-bit length.
pub open spec fn writable(s: Seq<char>) -> bool {
    encode_utf8(s).len() <= 0x1000_0000 && encode_text(s).len() <= 0xffff
}

/// Every string can be written.
pub open spec fn all_writable(v: Seq<Seq<char>>) -> bool {
    forall|i: int| 0 <= i < v.len() ==> writable(#[trigger] v[i])
}

/// Writes a length-prefixed string.
fn write_u16_string(out: &mut Vec<u8>, s: &String) -> (r: Result<(), StbError>)
    ensures
        writable(s@) ==> r is Ok && final(out)@ == old(out)@ + enc_str(s@),
        !writable(s@) ==> r == Err::<(), StbError>(StbError::StringTooLong),
{
    let st = s.as_str();
    let n = st.as_bytes().len();
    assert(n == encode_utf8(s@).len());
    if n > 0x1000_0000 {
        return Err(StbError::StringTooLong);
    }
    let b = encode_euc_kr(st);
    assert(b@ == encode_text(s@));
    if b.len() > 0xffff {
        return Err(StbError::StringTooLong);
    }
    push_u16_le(out, b.len() as u16);
    out.extend_from_slice(b.as_slice());
    assert(final(out)@ =~= old(out)@ + enc_str(s@));
    Ok(())
}

/// Writes length-prefixed strings one after another.
fn write_u16_strings(out: &mut Vec<u8>, v: &Vec<String>) -> (r: Result<(), StbError>)
    ensures
        all_writable(string_views(v@)) ==> r is Ok && final(out)@ == old(out)@ + enc_strs(
            string_views(v@),
        ),
        !all_writable(string_views(v@)) ==> r == Err::<(), StbError>(StbError::StringTooLong),
{
    let ghost start = out@;
    let mut i: usize = 0;
    while i < v.len()
        invariant
            i <= v@.len(),
            all_writable(string_views(v@).take(i as int)),
            out@ == start + enc_strs(string_views(v@).take(i as int)),
            start == old(out)@,
        decreases v@.len() - i,
    {
        let ghost before = out@;
        match write_u16_string(out, &v[i]) {
            Ok(()) => {},
            Err(e) => {
                assert(!writable(string_views(v@)[i as int]));
                return Err(e);
            },
        }
        proof {
            let t = string_views(v@).take(i + 1);
            assert(t.drop_last() =~= string_views(v@).take(i as int));
            assert(t.last() == v@[i as int]@);
        }
        i = i + 1;
    }
    assert(string_views(v@).take(v@.len() as int) =~= string_views(v@));
    Ok(())
}

/// Every string of a table can be written.
pub open spec fn model_writable(m: StbModel) -> bool {
    all_writable(m.column_names) && writable(m.row_name_header) && all_writable(m.row_names)
        && all_writable(m.cells)
}

/// The bytes between the fixed header and the cells: column widths, column
/// names, row-name header, row names.
pub open spec fn stb_head(m: StbModel) -> Seq<u8> {
    m.column_widths + enc_strs(m.column_names) + enc_str(m.row_name_header) + enc_strs(
        m.row_names,
    )
}

/// `x` reduced to 32 bits.
pub open spec fn low32(x: nat) -> u32 {
    (x % 0x1_0000_0000) as u32
}

/// The bytes written for a table: the layout read by [`stb_parse`], with the
/// row and column counts including the header row and row-name column, and
/// the cells right after the row names.
pub open spec fn stb_bytes(m: StbModel) -> Seq<u8> {
    seq![83u8, 84u8, 66u8, (48 + m.version) as u8] + u32_le_bytes(
        low32(20 + stb_head(m).len()),
    ) + u32_le_bytes(low32(m.rows() + 1)) + u32_le_bytes(low32(m.columns() + 1))
        + u32_le_bytes(m.row_height) + stb_head(m) + enc_strs(m.cells)
}

/// `x + k` reduced to 32 bits.
fn low32_plus(x: usize, k: u64) -> (r: u32)
    requires
        k < 0x1_0000_0000,
    ensures
        r == low32((x + k) as nat),
{
    let a = (x as u64) % 0x1_0000_0000;
    let b = (a + k) % 0x1_0000_0000;
    proof {
        vstd::arithmetic::div_mod::lemma_add_mod_noop(x as int, k as int, 0x1_0000_0000);
        vstd::arithmetic::div_mod::lemma_small_mod(k as nat, 0x1_0000_0000);
    }
    b as u32
}

// ---------------------------------------------------------------- round trip

/// Text that reads back as itself: ASCII without NUL characters.
pub open spec fn plain_text(s: Seq<char>) -> bool {
    is_ascii_chars(s) && forall|i: int| 0 <= i < s.len() ==> #[trigger] s[i] != '\0'
}

/// Every string is plain text.
pub open spec fn all_plain(v: Seq<Seq<char>>) -> bool {
    forall|i: int| 0 <= i < v.len() ==> plain_text(#[trigger] v[i])
}

/// The raw bytes of each string.
pub open spec fn utf8_all(v: Seq<Seq<char>>) -> Seq<Seq<u8>> {
    Seq::new(v.len(), |i: int| encode_utf8(v[i]))
}

/// `x` stands in `b` at `pos`.
pub open spec fn stands_at(b: Seq<u8>, pos: int, x: Seq<u8>) -> bool {
    0 <= pos && pos + x.len() <= b.len() && b.subrange(pos, pos + x.len()) == x
}

pub(crate) proof fn lemma_plain_bytes(s: Seq<char>)
    requires
        plain_text(s),
    ensures
        encode_utf8(s).len() == s.len(),
        ascii_bytes(encode_utf8(s)),
        forall|i: int| 0 <= i < encode_utf8(s).len() ==> #[trigger] encode_utf8(s)[i] != 0,
        until_nul(encode_utf8(s)) == encode_utf8(s),
        decode_text(encode_utf8(s), false) == s,
        encode_text(s) == encode_utf8(s),
{
    is_ascii_chars_encode_utf8(s);
    let e = encode_utf8(s);
    assert forall|i: int| 0 <= i < e.len() implies #[trigger] e[i] < 128 && e[i] != 0 by {
        assert(s[i] as u8 == e[i]);
        assert('\0' <= s[i] <= '\u{7f}');
        assert(s[i] != '\0');
    }
    lemma_until_nul_prefix(e, e.len() as int);
    assert(e.take(e.len() as int) =~= e);
    assert forall|i: int| 0 <= i < s.len() implies #[trigger] ascii_chars_of(e)[i] == s[i] by {
        assert(s[i] as u8 == e[i]);
        assert('\0' <= s[i] <= '\u{7f}');
    }
    assert(ascii_chars_of(e) =~= s);
}

pub(crate) proof fn lemma_subrange_split(b: Seq<u8>, pos: int, x: Seq<u8>, y: Seq<u8>)
    requires
        stands_at(b, pos, x + y),
    ensures
        stands_at(b, pos, x),
        stands_at(b, pos + x.len(), y),
{
    let whole = b.subrange(pos, pos + (x + y).len());
    assert(whole == x + y);
    assert(b.subrange(pos, pos + x.len()) =~= whole.subrange(0, x.len() as int));
    assert(whole.subrange(0, x.len() as int) =~= x);
    assert(b.subrange(pos + x.len(), pos + x.len() + y.len()) =~= whole.subrange(
        x.len() as int,
        (x + y).len() as int,
    ));
    assert(whole.subrange(x.len() as int, (x + y).len() as int) =~= y);
}

proof fn lemma_read_plain_str(b: Seq<u8>, pos: int, s: Seq<char>)
    requires
        plain_text(s),
        writable(s),
        stands_at(b, pos, enc_str(s)),
    ensures
        u16_str_at(b, pos) == Some((encode_utf8(s), pos + enc_str(s).len())),
        decode_text(encode_utf8(s), false) == s,
{
    lemma_plain_bytes(s);
    let e = encode_utf8(s);
    let len_bytes = u16_le_bytes(e.len() as u16);
    lemma_subrange_split(b, pos, len_bytes, e);
    lemma_le_u16_at(b, pos, e.len() as u16);
    assert(b.subrange(pos + 2, pos + 2 + le_u16(b, pos)) == e);
}

proof fn lemma_read_plain_strs(b: Seq<u8>, pos: int, v: Seq<Seq<char>>)
    requires
        all_plain(v),
        all_writable(v),
        stands_at(b, pos, enc_strs(v)),
    ensures
        strs_at(b, pos, v.len()) == Some((utf8_all(v), pos + enc_strs(v).len())),
        decode_all(utf8_all(v), false) == v,
    decreases v.len(),
{
    if v.len() == 0 {
        assert(utf8_all(v) =~= Seq::<Seq<u8>>::empty());
        assert(decode_all(utf8_all(v), false) =~= v);
    } else {
        let init = v.drop_last();
        assert(all_plain(init)) by {
            assert forall|i: int| 0 <= i < init.len() implies plain_text(#[trigger] init[i]) by {
                assert(init[i] == v[i]);
            }
        }
        assert(all_writable(init)) by {
            assert forall|i: int| 0 <= i < init.len() implies writable(#[trigger] init[i]) by {
                assert(init[i] == v[i]);
            }
        }
        lemma_subrange_split(b, pos, enc_strs(init), enc_str(v.last()));
        lemma_read_plain_strs(b, pos, init);
        assert(plain_text(v[v.len() - 1]));
        assert(writable(v[v.len() - 1]));
        lemma_read_plain_str(b, pos + enc_strs(init).len(), v.last());
        assert(utf8_all(v) =~= utf8_all(init).push(encode_utf8(v.last())));
        assert forall|i: int| 0 <= i < v.len() implies #[trigger] decode_all(utf8_all(v), false)[i]
            == v[i] by {
            if i < v.len() - 1 {
                assert(decode_all(utf8_all(init), false)[i] == init[i]);
            }
        }
        assert(decode_all(utf8_all(v), false) =~= v);
    }
}

/// Writing a table and reading its bytes back as EUC-KR text gives the same
/// table (keyed as the read asks), when all its text is ASCII without NUL
/// characters and short enough for 16-bit lengths, it has at least one named
/// column, its column widths have the length its version reads, and its row
/// count, column count and cell position fit in 32 bits.
/// The premises under which a written table reads back unchanged.
pub open spec fn round_trips(m: StbModel) -> bool {
    &&& m.wf()
    &&& m.version <= 1
    &&& model_writable(m)
    &&& all_plain(m.column_names)
    &&& plain_text(m.row_name_header)
    &&& all_plain(m.row_names)
    &&& all_plain(m.cells)
    &&& m.column_names.len() >= 1
    &&& m.column_widths.len() == column_widths_len(m.version, m.column_names.len() as int)
    &&& m.rows() + 1 < 0x1_0000_0000
    &&& m.column_names.len() < 0x1_0000_0000
    &&& 20 + stb_head(m).len() < 0x1_0000_0000
}

#[verifier::spinoff_prover]
#[verifier::rlimit(40)]
proof fn lemma_stb_fixed_fields(m: StbModel)
    requires
        round_trips(m),
    ensures
        stb_bytes(m).len() == 20 + stb_head(m).len() + enc_strs(m.cells).len(),
        stb_bytes(m)[0] == 83 && stb_bytes(m)[1] == 84 && stb_bytes(m)[2] == 66,
        version_of_byte(stb_bytes(m)[3]) == Some(m.version),
        le_u32(stb_bytes(m), 4) == 20 + stb_head(m).len(),
        le_u32(stb_bytes(m), 8) == m.rows() + 1,
        le_u32(stb_bytes(m), 12) == m.column_names.len(),
        le_u32(stb_bytes(m), 16) == m.row_height,
        stands_at(stb_bytes(m), 20, stb_head(m)),
        stands_at(stb_bytes(m), 20 + stb_head(m).len() as int, enc_strs(m.cells)),
{
    let b = stb_bytes(m);
    let head = stb_head(m);
    let hl = head.len() as int;
    let fixed = seq![83u8, 84u8, 66u8, (48 + m.version) as u8];
    let dp = low32(20 + head.len());
    let rc = low32(m.rows() + 1);
    let cc = low32(m.columns() + 1);
    assert(dp == 20 + head.len());
    assert(rc == m.rows() + 1);
    assert(cc == m.column_names.len());
    let cells_bytes = enc_strs(m.cells);
    assert(b =~= fixed + u32_le_bytes(dp) + u32_le_bytes(rc) + u32_le_bytes(cc) + u32_le_bytes(
        m.row_height,
    ) + head + cells_bytes);
    assert(b.subrange(4, 8) =~= u32_le_bytes(dp));
    assert(b.subrange(8, 12) =~= u32_le_bytes(rc));
    assert(b.subrange(12, 16) =~= u32_le_bytes(cc));
    assert(b.subrange(16, 20) =~= u32_le_bytes(m.row_height));
    lemma_le_u32_at(b, 4, dp);
    lemma_le_u32_at(b, 8, rc);
    lemma_le_u32_at(b, 12, cc);
    lemma_le_u32_at(b, 16, m.row_height);
    assert(b.subrange(20, 20 + hl) =~= head);
    assert(b.subrange(20 + hl, 20 + hl + cells_bytes.len()) =~= cells_bytes);
}

proof fn lemma_stb_head_reads(b: Seq<u8>, m: StbModel)
    requires
        round_trips(m),
        stands_at(b, 20, stb_head(m)),
    ensures
        ({
            let we = 20 + m.column_widths.len() as int;
            let p1 = we + enc_strs(m.column_names).len();
            let p2 = p1 + enc_str(m.row_name_header).len();
            &&& b.subrange(20, we) == m.column_widths
            &&& strs_at(b, we, m.column_names.len()) == Some((utf8_all(m.column_names), p1))
            &&& decode_all(utf8_all(m.column_names), false) == m.column_names
            &&& u16_str_at(b, p1) == Some((encode_utf8(m.row_name_header), p2))
            &&& decode_text(encode_utf8(m.row_name_header), false) == m.row_name_header
            &&& strs_at(b, p2, m.rows()) matches Some((raw, p3)) && decode_all(raw, false)
                == m.row_names && p3 == 20 + stb_head(m).len()
        }),
{
    let w = m.column_widths;
    let cn = enc_strs(m.column_names);
    let hd = enc_str(m.row_name_header);
    let rn = enc_strs(m.row_names);
    let wl = w.len() as int;
    let cl = cn.len() as int;
    let dl = hd.len() as int;
    assert(stb_head(m) =~= w + cn + hd + rn);
    lemma_subrange_split(b, 20, w + cn + hd, rn);
    lemma_subrange_split(b, 20, w + cn, hd);
    lemma_subrange_split(b, 20, w, cn);
    lemma_read_plain_strs(b, 20 + wl, m.column_names);
    lemma_read_plain_str(b, 20 + wl + cl, m.row_name_header);
    lemma_read_plain_strs(b, 20 + wl + cl + dl, m.row_names);
}

/// Writing a table and reading its bytes back as EUC-KR text gives the same
/// table (keyed as the read asks), when all its text is ASCII without NUL
/// characters and short enough for 16-bit lengths, it has at least one named
/// column, its column widths have the length its version reads, and its row
/// count, column count and cell position fit in 32 bits.
pub proof fn lemma_stb_write_read_round_trip(m: StbModel, with_keys: bool)
    requires
        round_trips(m),
    ensures
        stb_parse(stb_bytes(m), false, with_keys) == Ok::<StbModel, StbError>(
            StbModel { keyed: with_keys, ..m },
        ),
{
    let b = stb_bytes(m);
    lemma_stb_fixed_fields(m);
    lemma_stb_head_reads(b, m);
    let hl = stb_head(m).len() as int;
    lemma_read_plain_strs(b, 20 + hl, m.cells);
    assert(minus_one(m.rows() + 1int) == m.rows());
    assert(minus_one(m.column_names.len() as int) == m.columns());
    assert(m.cells.len() == m.rows() * m.columns());
}

// ---------------------------------------------------------------- the table

/// A table of text cells. Row `r`, column `c` (both counted without the
/// header row and the row-name column) is `cells[r * columns + c]`.
pub struct StbFile {
    version: u8,
    row_height: u32,
    column_widths: Vec<u8>,
    column_names: Vec<String>,
    row_name_header: String,
    row_names: Vec<String>,
    cells: Vec<String>,
    keyed: bool,
}

/// How a table file is read.
pub struct StbReadOptions {
    /// Text is UTF-16LE instead of EUC-KR.
    pub is_wide: bool,
    /// Rows can be looked up by name.
    pub with_keys: bool,
}

impl Default for StbReadOptions {
    fn default() -> (r: Self)
        ensures
            !r.is_wide && !r.with_keys,
    {
        StbReadOptions { is_wide: false, with_keys: false }
    }
}

/// Why a table could not be built, read, changed or written.
#[derive(Debug, Clone, Copy, PartialEq, Eq, Structural)]
pub enum StbError {
    /// The file does not start with `STB`.
    BadMagic,
    /// The version byte (the file's, or the one asked for) is not supported.
    UnsupportedVersion(u8),
    /// The file ends before its layout does.
    UnexpectedEof,
    /// The number of cells given does not fill the rows and columns.
    CellCountMismatch,
    /// No such row.
    InvalidRow(usize),
    /// No such cell.
    InvalidCell(usize, usize),
    /// A string is too long to be written with a 16-bit length.
    StringTooLong,
}

/// The contents of a table.
pub struct StbModel {
    pub version: u8,
    pub row_height: u32,
    pub column_widths: Seq<u8>,
    pub column_names: Seq<Seq<char>>,
    pub row_name_header: Seq<char>,
    pub row_names: Seq<Seq<char>>,
    pub cells: Seq<Seq<char>>,
    /// Rows can be looked up by name.
    pub keyed: bool,
}

impl StbModel {
    /// Data columns: the named columns other than the row-name column.
    pub open spec fn columns(self) -> nat {
        if self.column_names.len() == 0 {
            0
        } else {
            (self.column_names.len() - 1) as nat
        }
    }

    /// Data rows.
    pub open spec fn rows(self) -> nat {
        self.row_names.len()
    }

    /// The cells fill the rows and columns exactly.
    pub open spec fn wf(self) -> bool {
        self.cells.len() == self.rows() * self.columns()
    }

    /// The cell at `row`, `column`, when both are in range.
    pub open spec fn cell(self, row: int, column: int) -> Option<Seq<char>> {
        if 0 <= row < self.rows() && 0 <= column < self.columns() {
            Some(self.cells[row * self.columns() + column])
        } else {
            None
        }
    }

    /// Looking a row up by name: the last row with that name, when the table
    /// is keyed and the name is not empty.
    pub open spec fn row_by_name(self, name: Seq<char>) -> Option<usize> {
        if self.keyed && name.len() > 0 && exists|i: int|
            0 <= i < self.rows() && #[trigger] self.row_names[i] == name {
            let i = choose|i: int|
                0 <= i < self.rows() && #[trigger] self.row_names[i] == name && forall|j: int|
                    i < j < self.rows() ==> self.row_names[j] != name;
            Some(i as usize)
        } else {
            None
        }
    }
}

impl View for StbFile {
    type V = StbModel;

    closed spec fn view(&self) -> StbModel {
        StbModel {
            version: self.version,
            row_height: self.row_height,
            column_widths: self.column_widths@,
            column_names: string_views(self.column_names@),
            row_name_header: self.row_name_header@,
            row_names: string_views(self.row_names@),
            cells: string_views(self.cells@),
            keyed: self.keyed,
        }
    }
}

/// Version byte of a table file: `'0'` or `'1'`.
pub open spec fn version_of_byte(b: u8) -> Option<u8> {
    if b == 48 {
        Some(0)
    } else if b == 49 {
        Some(1)
    } else {
        None
    }
}

/// Bytes of column widths: four for version 0, two per column (and one more)
/// for version 1.
pub open spec fn column_widths_len(version: u8, column_count: int) -> int {
    if version == 0 {
        4
    } else {
        2 * (column_count + 1)
    }
}

/// `x - 1`, but not below zero.
pub open spec fn minus_one(x: int) -> nat {
    if x > 0 {
        (x - 1) as nat
    } else {
        0
    }
}

/// Where the cells are read: at the cell position the header gives, but
/// never before the end of the row names (a position inside the header is
/// taken to mean the cells follow the row names).
pub open spec fn cells_start(data_position: int, names_end: int) -> int {
    if data_position < names_end {
        names_end
    } else {
        data_position
    }
}

/// What reading `b` as a table file gives.
///
/// Layout: `STB`, a version byte, then little-endian `u32`s for the position of
/// the cells, the row count, the column count and the row height (counts
/// include the header row and the row-name column), the column widths, the
/// column names, the row-name header, the row names, and at the cell position
/// (see `cells_start`) the cells row by row. Every string is a `u16` byte
/// length and its bytes.
pub open spec fn stb_parse(b: Seq<u8>, opts_wide: bool, opts_keys: bool) -> Result<StbModel, StbError> {
    if b.len() < 3 {
        Err(StbError::UnexpectedEof)
    } else if !(b[0] == 83 && b[1] == 84 && b[2] == 66) {
        Err(StbError::BadMagic)
    } else if b.len() < 4 {
        Err(StbError::UnexpectedEof)
    } else if version_of_byte(b[3]) is None {
        Err(StbError::UnsupportedVersion(b[3]))
    } else if b.len() < 20 {
        Err(StbError::UnexpectedEof)
    } else {
        let version = version_of_byte(b[3]).unwrap();
        let data_position = le_u32(b, 4);
        let row_count = le_u32(b, 8);
        let column_count = le_u32(b, 12);
        let row_height = le_u32(b, 16) as u32;
        let widths_end = 20 + column_widths_len(version, column_count);
        let rows = minus_one(row_count);
        let columns = minus_one(column_count);
        if widths_end > b.len() {
            Err(StbError::UnexpectedEof)
        } else {
            match strs_at(b, widths_end, column_count as nat) {
                None => Err(StbError::UnexpectedEof),
                Some((names, p1)) => match u16_str_at(b, p1) {
                    None => Err(StbError::UnexpectedEof),
                    Some((header, p2)) => match strs_at(b, p2, rows) {
                        None => Err(StbError::UnexpectedEof),
                        Some((row_names, p3)) => if cells_start(data_position, p3) > b.len() {
                            Err(StbError::UnexpectedEof)
                        } else {
                            match strs_at(b, cells_start(data_position, p3), rows * columns) {
                                None => Err(StbError::UnexpectedEof),
                                Some((cells, _)) => Ok(
                                    StbModel {
                                        version,
                                        row_height,
                                        column_widths: b.subrange(20, widths_end),
                                        column_names: decode_all(names, opts_wide),
                                        row_name_header: decode_text(header, opts_wide),
                                        row_names: decode_all(row_names, opts_wide),
                                        cells: decode_all(cells, opts_wide),
                                        keyed: opts_keys,
                                    },
                                ),
                            }
                        },
                    },
                },
            }
        }
    }
}

proof fn lemma_cell_in_range(row: int, column: int, rows: int, columns: int)
    requires
        0 <= row < rows,
        0 <= column < columns,
    ensures
        row * columns + column < rows * columns,
{
    assert(row * columns + column < rows * columns) by (nonlinear_arith)
        requires
            0 <= row < rows,
            0 <= column < columns,
    ;
}

proof fn lemma_strs_at_len(b: Seq<u8>, pos: int, n: nat)
    requires
        strs_at(b, pos, n) is Some,
    ensures
        strs_at(b, pos, n).unwrap().0.len() == n,
        pos <= strs_at(b, pos, n).unwrap().1,
    decreases n,
{
    if n > 0 {
        lemma_strs_at_len(b, pos, (n - 1) as nat);
    }
}

impl StbFile {
    /// The contents are consistent: the cells fill the rows and columns, and
    /// the version is one that can be written.
    pub open spec fn wf(&self) -> bool {
        self@.wf() && self@.version <= 1
    }

    /// Builds a keyed table from its parts; version 1 tables get two bytes of
    /// column width per column, version 0 tables four bytes in all, all zero.
    pub fn new(
        version: u8,
        row_height: u32,
        column_names: Vec<String>,
        row_name_header: String,
        row_names: Vec<String>,
        cells: Vec<String>,
    ) -> (r: Result<StbFile, StbError>)
        requires
            2 * (column_names@.len() + 1) <= usize::MAX,
        ensures
            version > 1 ==> r == Err::<StbFile, StbError>(StbError::UnsupportedVersion(version)),
            version <= 1 && cells@.len() != row_names@.len() * minus_one(column_names@.len() as int)
                ==> r == Err::<StbFile, StbError>(StbError::CellCountMismatch),
            version <= 1 && cells@.len() == row_names@.len() * minus_one(column_names@.len() as int)
                ==> (r matches Ok(f) && f.wf() && f@ == (StbModel {
                version,
                row_height,
                column_widths: Seq::new(
                    column_widths_len(version, column_names@.len() as int) as nat,
                    |i: int| 0u8,
                ),
                column_names: string_views(column_names@),
                row_name_header: row_name_header@,
                row_names: string_views(row_names@),
                cells: string_views(cells@),
                keyed: true,
            })),
    {
        if version > 1 {
            return Err(StbError::UnsupportedVersion(version));
        }
        let columns = if column_names.len() > 0 {
            column_names.len() - 1
        } else {
            0
        };
        match row_names.len().checked_mul(columns) {
            Some(n) => {
                if cells.len() != n {
                    return Err(StbError::CellCountMismatch);
                }
            },
            None => {
                assert(columns as int == minus_one(column_names@.len() as int));
                assert(row_names@.len() * columns > usize::MAX);
                // no vector holds that many cells
                let cell_count = cells.len();
                assert(cell_count != row_names@.len() * columns);
                return Err(StbError::CellCountMismatch);
            },
        }
        let widths_len = if version == 0 {
            4
        } else {
            2 * (column_names.len() + 1)
        };
        let column_widths = vec![0u8; widths_len];
        let f = StbFile {
            version,
            row_height,
            column_widths,
            column_names,
            row_name_header,
            row_names,
            cells,
            keyed: true,
        };
        assert(f@.column_widths =~= Seq::new(
            column_widths_len(version, f.column_names@.len() as int) as nat,
            |i: int| 0u8,
        ));
        Ok(f)
    }

    /// Data rows (the header row not counted).
    pub fn rows(&self) -> (r: usize)
        ensures
            r == self@.rows(),
    {
        self.row_names.len()
    }

    /// Data columns (the row-name column not counted).
    pub fn columns(&self) -> (r: usize)
        ensures
            r == self@.columns(),
    {
        if self.column_names.len() > 0 {
            self.column_names.len() - 1
        } else {
            0
        }
    }

    /// The version, 0 or 1.
    pub fn version(&self) -> (r: u8)
        ensures
            r == self@.version,
    {
        self.version
    }

    /// The row height the table was saved with.
    pub fn row_height(&self) -> (r: u32)
        ensures
            r == self@.row_height,
    {
        self.row_height
    }

    /// Where `row`, `column` lies in the cells, when both are in range.
    fn cell_index(&self, row: usize, column: usize) -> (r: Option<usize>)
        requires
            self.wf(),
        ensures
            match self@.cell(row as int, column as int) {
                Some(c) => r matches Some(i) && i == row * self@.columns() + column && i
                    < self@.cells.len() && self@.cells[i as int] == c,
                None => r is None,
            },
    {
        let rows = self.rows();
        let columns = self.columns();
        // the cells fill the table, so every index into it fits in `usize`
        let cell_count = self.cells.len();
        if row >= rows || column >= columns {
            None
        } else {
            proof {
                lemma_cell_in_range(row as int, column as int, rows as int, columns as int);
                assert(string_views(self.cells@).len() == self.cells@.len());
            }
            Some(row * columns + column)
        }
    }

    /// Writes the table.
    #[verifier::rlimit(40)]
    pub fn write(&self) -> (r: Result<Vec<u8>, StbError>)
        requires
            self.wf(),
        ensures
            model_writable(self@) ==> (r matches Ok(b) && b@ == stb_bytes(self@)),
            !model_writable(self@) ==> r == Err::<Vec<u8>, StbError>(StbError::StringTooLong),
    {
        let version_byte: u8 = if self.version == 0 {
            48
        } else {
            49
        };
        let mut head = match self.write_head() {
            Ok(h) => h,
            Err(e) => {
                return Err(e);
            },
        };
        let ghost head_bytes = head@;
        let mut out: Vec<u8> = Vec::new();
        out.push(83u8);
        out.push(84u8);
        out.push(66u8);
        out.push(version_byte);
        let data_position = low32_plus(head.len(), 20);
        let row_count = low32_plus(self.rows(), 1);
        let column_count = low32_plus(self.columns(), 1);
        assert(out@ =~= seq![83u8, 84u8, 66u8, (48 + self@.version) as u8]);
        push_u32_le(&mut out, data_position);
        push_u32_le(&mut out, row_count);
        push_u32_le(&mut out, column_count);
        push_u32_le(&mut out, self.row_height);
        let ghost fixed = out@;
        assert(fixed =~= seq![83u8, 84u8, 66u8, (48 + self@.version) as u8] + u32_le_bytes(
            low32(20 + stb_head(self@).len()),
        ) + u32_le_bytes(low32(self@.rows() + 1)) + u32_le_bytes(low32(self@.columns() + 1))
            + u32_le_bytes(self@.row_height));
        out.append(&mut head);
        match write_u16_strings(&mut out, &self.cells) {
            Ok(()) => {},
            Err(e) => {
                return Err(e);
            },
        }
        assert(out@ =~= stb_bytes(self@));
        Ok(out)
    }

    fn write_head(&self) -> (r: Result<Vec<u8>, StbError>)
        ensures
            (all_writable(self@.column_names) && writable(self@.row_name_header) && all_writable(
                self@.row_names,
            )) ==> (r matches Ok(b) && b@ == stb_head(self@)),
            !(all_writable(self@.column_names) && writable(self@.row_name_header)
                && all_writable(self@.row_names)) ==> r == Err::<Vec<u8>, StbError>(
                StbError::StringTooLong,
            ),
    {
        let mut head: Vec<u8> = Vec::new();
        head.extend_from_slice(self.column_widths.as_slice());
        match write_u16_strings(&mut head, &self.column_names) {
            Ok(()) => {},
            Err(e) => {
                return Err(e);
            },
        }
        match write_u16_string(&mut head, &self.row_name_header) {
            Ok(()) => {},
            Err(e) => {
                return Err(e);
            },
        }
        match write_u16_strings(&mut head, &self.row_names) {
            Ok(()) => {},
            Err(e) => {
                return Err(e);
            },
        }
        assert(head@ =~= stb_head(self@));
        Ok(head)
    }

    /// The row named `name`: the last such row, when the table is keyed and the
    /// name is not empty.
    pub fn lookup_row_name(&self, name: &str) -> (r: Option<usize>)
        ensures
            r == self@.row_by_name(name@),
    {
        if !self.keyed || name.is_empty() {
            return None;
        }
        let key = name.to_string();
        assert(key@ == name@);
        let mut i = self.row_names.len();
        while i > 0
            invariant
                i <= self.row_names@.len(),
                key@ == name@,
                self.keyed,
                name@.len() > 0,
                forall|j: int| i <= j < self.row_names@.len() ==> #[trigger] self@.row_names[j]
                    != name@,
            decreases i,
        {
            i = i - 1;
            if self.row_names[i] == key {
                let ghost m = self@;
                assert(m.row_names[i as int] == name@);
                assert(forall|k: int|
                    0 <= k < m.rows() && #[trigger] m.row_names[k] == name@ && (forall|j: int|
                        k < j < m.rows() ==> m.row_names[j] != name@) ==> k == i);
                assert(forall|j: int| i < j < m.rows() ==> m.row_names[j] != name@);
                let ghost c = choose|k: int|
                    0 <= k < m.rows() && #[trigger] m.row_names[k] == name@ && forall|j: int|
                        k < j < m.rows() ==> m.row_names[j] != name@;
                assert(c == i);
                return Some(i);
            }
        }
        assert(forall|k: int| 0 <= k < self@.rows() ==> #[trigger] self@.row_names[k] != name@);
        None
    }

    /// The header of the row-name column.
    pub fn row_name_header(&self) -> (r: &str)
        ensures
            r@ == self@.row_name_header,
    {
        self.row_name_header.as_str()
    }

    /// The name of column `column` (column 0 is the row-name column).
    pub fn column_name(&self, column: usize) -> (r: Option<&str>)
        ensures
            column < self@.column_names.len() ==> (r matches Some(s) && s@
                == self@.column_names[column as int]),
            column >= self@.column_names.len() ==> r is None,
    {
        if column < self.column_names.len() {
            Some(self.column_names[column].as_str())
        } else {
            None
        }
    }

    /// The name of row `row`.
    pub fn try_get_row_name(&self, row: usize) -> (r: Option<&str>)
        ensures
            row < self@.rows() ==> (r matches Some(s) && s@ == self@.row_names[row as int]),
            row >= self@.rows() ==> r is None,
    {
        if row < self.row_names.len() {
            Some(self.row_names[row].as_str())
        } else {
            None
        }
    }

    /// The name of row `row`, or the empty string past the last row.
    pub fn get_row_name(&self, row: usize) -> (r: &str)
        ensures
            row < self@.rows() ==> r@ == self@.row_names[row as int],
            row >= self@.rows() ==> r@ == Seq::<char>::empty(),
    {
        match self.try_get_row_name(row) {
            Some(s) => s,
            None => {
                proof {
                    reveal_strlit("");
                }
                ""
            },
        }
    }

    /// The text of a cell; `None` when it is out of range or empty.
    pub fn try_get(&self, row: usize, column: usize) -> (r: Option<&str>)
        requires
            self.wf(),
        ensures
            match self@.cell(row as int, column as int) {
                Some(c) => if c.len() == 0 {
                    r is None
                } else {
                    r matches Some(s) && s@ == c
                },
                None => r is None,
            },
    {
        let i = self.cell_index(row, column)?;
        let value = &self.cells[i];
        if value.as_str().is_empty() {
            None
        } else {
            Some(value.as_str())
        }
    }

    /// The text of a cell, or the empty string.
    pub fn get(&self, row: usize, column: usize) -> (r: &str)
        requires
            self.wf(),
        ensures
            r@ == match self@.cell(row as int, column as int) {
                Some(c) => c,
                None => Seq::<char>::empty(),
            },
    {
        match self.try_get(row, column) {
            Some(s) => s,
            None => {
                proof {
                    reveal_strlit("");
                }
                ""
            },
        }
    }

    /// A cell read as a decimal `i32`.
    pub fn try_get_int(&self, row: usize, column: usize) -> (r: Option<i32>)
        requires
            self.wf(),
        ensures
            r == match self@.cell(row as int, column as int) {
                Some(c) => parse_i32_spec(c),
                None => None,
            },
    {
        match self.try_get(row, column) {
            Some(s) => parse_i32(s),
            None => {
                proof {
                    if let Some(c) = self@.cell(row as int, column as int) {
                        assert(c.len() == 0);
                        assert(encode_utf8(c) =~= Seq::<u8>::empty());
                    }
                }
                None
            },
        }
    }

    /// A cell read as a decimal `i32`, or 0.
    pub fn get_int(&self, row: usize, column: usize) -> (r: i32)
        requires
            self.wf(),
        ensures
            r == match self@.cell(row as int, column as int) {
                Some(c) => match parse_i32_spec(c) {
                    Some(v) => v,
                    None => 0,
                },
                None => 0,
            },
    {
        match self.try_get_int(row, column) {
            Some(v) => v,
            None => 0,
        }
    }

    /// Replaces the text of a cell.
    pub fn set(&mut self, row: usize, column: usize, value: String) -> (r: Result<(), StbError>)
        requires
            old(self).wf(),
        ensures
            final(self).wf(),
            old(self)@.cell(row as int, column as int) is None ==> r == Err::<(), StbError>(
                StbError::InvalidCell(row, column),
            ) && final(self)@ == old(self)@,
            old(self)@.cell(row as int, column as int) is Some ==> r is Ok && final(self)@ == (
            StbModel {
                cells: old(self)@.cells.update(row * old(self)@.columns() + column, value@),
                ..old(self)@
            }),
    {
        let i = match self.cell_index(row, column) {
            Some(i) => i,
            None => {
                return Err(StbError::InvalidCell(row, column));
            },
        };
        let ghost old_cells = self.cells@;
        self.cells.set(i, value);
        assert(string_views(self.cells@) =~= string_views(old_cells).update(i as int, value@));
        Ok(())
    }

    /// Renames a row; the table becomes keyed.
    pub fn set_row_name(&mut self, row: usize, value: String) -> (r: Result<(), StbError>)
        requires
            old(self).wf(),
        ensures
            final(self).wf(),
            row >= old(self)@.rows() ==> r == Err::<(), StbError>(StbError::InvalidRow(row))
                && final(self)@ == old(self)@,
            row < old(self)@.rows() ==> r is Ok && final(self)@ == (StbModel {
                row_names: old(self)@.row_names.update(row as int, value@),
                keyed: true,
                ..old(self)@
            }),
    {
        if row >= self.row_names.len() {
            return Err(StbError::InvalidRow(row));
        }
        let ghost old_names = self.row_names@;
        self.row_names.set(row, value);
        self.keyed = true;
        assert(string_views(self.row_names@) =~= string_views(old_names).update(
            row as int,
            value@,
        ));
        Ok(())
    }

    /// Appends a row with one value per data column and returns its index;
    /// the table becomes keyed.
    pub fn push_row(&mut self, row_name: String, values: Vec<String>) -> (r: Result<
        usize,
        StbError,
    >)
        requires
            old(self).wf(),
        ensures
            final(self).wf(),
            values@.len() != old(self)@.columns() ==> r == Err::<usize, StbError>(
                StbError::CellCountMismatch,
            ) && final(self)@ == old(self)@,
            values@.len() == old(self)@.columns() ==> r == Ok::<usize, StbError>(
                old(self)@.rows() as usize,
            ) && final(self)@ == (StbModel {
                row_names: old(self)@.row_names.push(row_name@),
                cells: old(self)@.cells + string_views(values@),
                keyed: true,
                ..old(self)@
            }),
    {
        if values.len() != self.columns() {
            return Err(StbError::CellCountMismatch);
        }
        let row_index = self.rows();
        let ghost old_names = self.row_names@;
        let ghost old_cells = self.cells@;
        let ghost cols = self@.columns();
        let ghost vals = values@;
        self.row_names.push(row_name);
        let mut values = values;
        self.cells.append(&mut values);
        self.keyed = true;
        assert(self.cells@ == old_cells + vals);
        assert(string_views(self.row_names@) =~= string_views(old_names).push(row_name@));
        assert(string_views(self.cells@) =~= string_views(old_cells) + string_views(vals));
        assert(self@.columns() == cols);
        assert((row_index + 1) * cols == row_index * cols + cols) by (nonlinear_arith);
        Ok(row_index)
    }

    /// Reads a table file.
    pub fn read(bytes: &[u8], options: &StbReadOptions) -> (r: Result<StbFile, StbError>)
        ensures
            match stb_parse(bytes@, options.is_wide, options.with_keys) {
                Ok(m) => r matches Ok(f) && f@ == m && f.wf(),
                Err(e) => r == Err::<StbFile, StbError>(e),
            },
    {
        if bytes.len() < 3 {
            return Err(StbError::UnexpectedEof);
        }
        if !(bytes[0] == 83u8 && bytes[1] == 84u8 && bytes[2] == 66u8) {
            return Err(StbError::BadMagic);
        }
        StbFile::read_data(bytes, options)
    }

    /// Reads everything after the `STB` magic: version, header fields, names
    /// and cells.
    fn read_data(bytes: &[u8], options: &StbReadOptions) -> (r: Result<StbFile, StbError>)
        requires
            bytes@.len() >= 3,
            bytes@[0] == 83 && bytes@[1] == 84 && bytes@[2] == 66,
        ensures
            match stb_parse(bytes@, options.is_wide, options.with_keys) {
                Ok(m) => r matches Ok(f) && f@ == m && f.wf(),
                Err(e) => r == Err::<StbFile, StbError>(e),
            },
    {
        let b = bytes;
        if b.len() < 4 {
            return Err(StbError::UnexpectedEof);
        }
        let version: u8 = if b[3] == 48u8 {
            0
        } else if b[3] == 49u8 {
            1
        } else {
            return Err(StbError::UnsupportedVersion(b[3]));
        };
        if b.len() < 20 {
            return Err(StbError::UnexpectedEof);
        }
        let wide = options.is_wide;
        let data_position = read_u32_le(b, 4);
        let row_count = read_u32_le(b, 8);
        let column_count = read_u32_le(b, 12);
        let row_height = read_u32_le(b, 16);
        let widths_len: u64 = if version == 0 {
            4
        } else {
            2 * (column_count as u64 + 1)
        };
        if widths_len > (b.len() - 20) as u64 {
            return Err(StbError::UnexpectedEof);
        }
        let widths_end = 20 + widths_len as usize;
        let column_widths = vstd::slice::slice_to_vec(&b[20..widths_end]);
        let rows: u64 = if row_count > 0 {
            (row_count - 1) as u64
        } else {
            0
        };
        let columns: u64 = if column_count > 0 {
            (column_count - 1) as u64
        } else {
            0
        };
        let (column_names, p1) = match read_u16_strings(b, widths_end, column_count as u64, wide) {
            Some(x) => x,
            None => {
                return Err(StbError::UnexpectedEof);
            },
        };
        proof {
            lemma_strs_at_len(b@, widths_end as int, column_count as nat);
        }
        let (row_name_header, p2) = match read_u16_string(b, p1, wide) {
            Some(x) => x,
            None => {
                return Err(StbError::UnexpectedEof);
            },
        };
        let (row_names, p3) = match read_u16_strings(b, p2, rows, wide) {
            Some(x) => x,
            None => {
                return Err(StbError::UnexpectedEof);
            },
        };
        proof {
            lemma_strs_at_len(b@, p2 as int, rows as nat);
        }
        let start: usize = if (data_position as usize) < p3 {
            p3
        } else {
            data_position as usize
        };
        if start > b.len() {
            return Err(StbError::UnexpectedEof);
        }
        assert(rows * columns <= 0xffff_ffff_ffff_ffff) by (nonlinear_arith)
            requires
                rows <= 0xffff_ffff,
                columns <= 0xffff_ffff,
        ;
        let (cells, _p4) = match read_u16_strings(
            b,
            start,
            rows * columns,
            wide,
        ) {
            Some(x) => x,
            None => {
                return Err(StbError::UnexpectedEof);
            },
        };
        proof {
            lemma_strs_at_len(b@, start as int, (rows * columns) as nat);
        }
        let f = StbFile {
            version,
            row_height,
            column_widths,
            column_names,
            row_name_header,
            row_names,
            cells,
            keyed: options.with_keys,
        };
        assert(f@.column_names.len() == column_count);
        assert(f@.cells.len() == rows * columns);
        assert(f@ == stb_parse(bytes@, options.is_wide, options.with_keys).unwrap());
        Ok(f)
    }
}

/// The fixed header of a table file: `STB`, the version as the digit `0`
/// or `1`, then little-endian `u32`s at bytes 4 (cell position), 8 (rows,
/// header row included), 12 (columns, row-name column included) and 16 (row
/// height). Whatever a successful read gives agrees with those bytes.
pub proof fn lemma_stb_header_layout(b: Seq<u8>, wide: bool, keys: bool)
    ensures
        stb_parse(b, wide, keys) matches Ok(m) ==> {
            &&& b.len() >= 20
            &&& b[0] == 83 && b[1] == 84 && b[2] == 66
            &&& (b[3] == 48 && m.version == 0) || (b[3] == 49 && m.version == 1)
            &&& m.row_height == le_u32(b, 16)
            &&& m.row_names.len() == (if le_u32(b, 8) > 0 { le_u32(b, 8) - 1 } else { 0 })
            &&& m.column_names.len() == le_u32(b, 12)
            &&& m.keyed == keys
        },
        b.len() >= 3 && !(b[0] == 83 && b[1] == 84 && b[2] == 66) ==> stb_parse(b, wide, keys)
            == Err::<StbModel, StbError>(StbError::BadMagic),
{
    if let Ok(m) = stb_parse(b, wide, keys) {
        let version = version_of_byte(b[3]).unwrap();
        let column_count = le_u32(b, 12);
        let row_count = le_u32(b, 8);
        let widths_end = 20 + column_widths_len(version, column_count);
        lemma_strs_at_len(b, widths_end, column_count as nat);
        let (names, p1) = strs_at(b, widths_end, column_count as nat).unwrap();
        let (header, p2) = u16_str_at(b, p1).unwrap();
        lemma_strs_at_len(b, p2, minus_one(row_count));
    }
}

/// A written table starts with the header its reader expects: `STB`, the
/// version digit, the position right after the row names where the cells
/// begin, the row and column counts with the header row and row-name column
/// added, and the row height.
pub proof fn lemma_stb_written_header(m: StbModel)
    ensures
        ({
            let w = stb_bytes(m);
            &&& w.len() >= 20
            &&& w[0] == 83 && w[1] == 84 && w[2] == 66 && w[3] == (48 + m.version) as u8
            &&& le_u32(w, 4) == (20 + stb_head(m).len()) % 0x1_0000_0000
            &&& le_u32(w, 8) == (m.rows() + 1) % 0x1_0000_0000
            &&& le_u32(w, 12) == (m.columns() + 1) % 0x1_0000_0000
            &&& le_u32(w, 16) == m.row_height
        }),
{
    let magic = seq![83u8, 84u8, 66u8, (48 + m.version) as u8];
    let a = u32_le_bytes(low32(20 + stb_head(m).len()));
    let r = u32_le_bytes(low32(m.rows() + 1));
    let c = u32_le_bytes(low32(m.columns() + 1));
    let h = u32_le_bytes(m.row_height);
    let rest = stb_head(m) + enc_strs(m.cells);
    let w = stb_bytes(m);
    assert(w == magic + a + r + c + h + rest);
    assert(w.subrange(4, 8) =~= a);
    assert(w.subrange(8, 12) =~= r);
    assert(w.subrange(12, 16) =~= c);
    assert(w.subrange(16, 20) =~= h);
    lemma_le_u32_at(w, 4, low32(20 + stb_head(m).len()));
    lemma_le_u32_at(w, 8, low32(m.rows() + 1));
    lemma_le_u32_at(w, 12, low32(m.columns() + 1));
    lemma_le_u32_at(w, 16, m.row_height);
    assert(w[0] == 83 && w[1] == 84 && w[2] == 66 && w[3] == (48 + m.version) as u8);
}

} // verus!
