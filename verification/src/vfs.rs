//! The game's virtual file system index (`data.idx`): the storage files it
//! names, the entries each of them lists, and how a rewrite rebuilds storage
//! bytes and the index itself.
use vstd::prelude::*;
use vstd::utf8::*;

use crate::bytes::{
    lemma_le_u16_at, lemma_le_u32_at, le_u16, le_u32, push_u16_le, push_u32_le, read_u16_le, read_u32_le,
    u16_le_bytes, u32_le_bytes,
};
use crate::ifo::{lemma_list_step, lemma_list_stop, list_at, u32_at, word};
use crate::social::{ascii_lower, lower_char, same_name};
use crate::stb::{
    decode_text, encode_text, lemma_plain_bytes, lemma_subrange_split, low32, plain_text, stands_at,
};
use crate::text::{ascii_bytes, ascii_chars_of, encode_euc_kr};

verus! {

// ---------------------------------------------------------------- strings

/// What `encoding_rs::EUC_KR.decode` (which first looks for a byte-order
/// mark) makes of `bytes`.
pub uninterp spec fn euc_kr_bom_decoded(bytes: Seq<u8>) -> Seq<char>;

/// Decodes `bytes` with `encoding_rs::EUC_KR.decode`.
/// Claimed: the result is the named decoding of the bytes, and ASCII-only input
/// comes back character for character (no byte-order mark starts with an
/// ASCII byte, and the crate borrows ASCII input unchanged). What a byte-order
/// mark or other bytes give is left to the name.
#[verifier::external_body]
fn decode_euc_kr_sniffing(bytes: &[u8]) -> (s: String)
    ensures
        s@ == euc_kr_bom_decoded(bytes@),
        ascii_bytes(bytes@) ==> s@ == ascii_chars_of(bytes@),
{
    encoding_rs::EUC_KR.decode(bytes).0.into_owned()
}

/// The bytes without one trailing NUL byte, if they end with one.
pub open spec fn strip_one_nul(b: Seq<u8>) -> Seq<u8> {
    if b.len() > 0 && b.last() == 0 {
        b.drop_last()
    } else {
        b
    }
}

/// The text of a name as the index stores it: without its trailing NUL
/// byte, ASCII bytes as their characters, anything else through the named
/// decoding.
pub open spec fn vfs_text(raw: Seq<u8>) -> Seq<char> {
    let t = strip_one_nul(raw);
    if ascii_bytes(t) {
        ascii_chars_of(t)
    } else {
        euc_kr_bom_decoded(t)
    }
}

/// Decodes a name of the index: one trailing NUL byte is dropped and the rest
/// is EUC-KR text.
pub fn decode_vfs_string(bytes: &[u8]) -> (s: String)
    ensures
        s@ == vfs_text(bytes@),
{
    let n = bytes.len();
    if n > 0 && bytes[n - 1] == 0 {
        let cut = &bytes[0..n - 1];
        assert(cut@ =~= strip_one_nul(bytes@));
        decode_euc_kr_sniffing(cut)
    } else {
        decode_euc_kr_sniffing(bytes)
    }
}

/// A name as the index stores it: a `u16` byte length (cut to 16 bits), then
/// the EUC-KR bytes and a NUL byte.
pub open spec fn vstr(s: Seq<char>) -> Seq<u8> {
    let e = encode_text(s).push(0u8);
    u16_le_bytes((e.len() % 0x1_0000) as u16) + e
}

/// Appends a name as the index stores it.
pub fn write_vfs_string(out: &mut Vec<u8>, value: &str)
    requires
        encode_utf8(value@).len() <= 0x1000_0000,
    ensures
        final(out)@ == old(out)@ + vstr(value@),
{
    let mut bytes = encode_euc_kr(value);
    bytes.push(0u8);
    let len = bytes.len();
    push_u16_le(out, (len % 0x1_0000) as u16);
    let ghost mid = out@;
    out.extend_from_slice(bytes.as_slice());
    assert(final(out)@ =~= old(out)@ + vstr(value@));
}

/// The path with every `/` turned into `\`.
pub open spec fn backslashed(p: Seq<char>) -> Seq<char> {
    Seq::new(p.len(), |i: int| if p[i] == '/' { '\\' } else { p[i] })
}

/// A path as the index writes it: with backslashes.
pub fn format_vfs_path(path: &str) -> (s: String)
    ensures
        s@ == backslashed(path@),
{
    let n = path.unicode_len();
    let mut s = String::new();
    let mut i: usize = 0;
    let sep = "\\";
    proof {
        reveal_strlit("\\");
    }
    while i < n
        invariant
            i <= n,
            n == path@.len(),
            sep@ == seq!['\\'],
            s@ == backslashed(path@).take(i as int),
        decreases n - i,
    {
        let c = path.get_char(i);
        if c == '/' {
            s.append(sep);
        } else {
            s.append(path.substring_char(i, i + 1));
        }
        assert(s@ =~= backslashed(path@).take(i + 1));
        i = i + 1;
    }
    assert(backslashed(path@).take(n as int) =~= backslashed(path@));
    s
}

// ---------------------------------------------------------------- the index

/// A file stored in a storage file: where its bytes are and what the index
/// records of it.
#[derive(Debug, Clone, PartialEq, Eq)]
pub struct FileEntry {
    pub path: String,
    pub offset: usize,
    pub size: usize,
    pub block_size: u32,
    pub is_deleted: u8,
    pub is_compressed: u8,
    pub is_encrypted: u8,
    pub version: u32,
    pub crc: u32,
}

/// An entry as values.
pub struct EntryModel {
    pub path: Seq<char>,
    pub offset: nat,
    pub size: nat,
    pub block_size: u32,
    pub is_deleted: u8,
    pub is_compressed: u8,
    pub is_encrypted: u8,
    pub version: u32,
    pub crc: u32,
}

impl View for FileEntry {
    type V = EntryModel;

    open spec fn view(&self) -> EntryModel {
        EntryModel {
            path: self.path@,
            offset: self.offset as nat,
            size: self.size as nat,
            block_size: self.block_size,
            is_deleted: self.is_deleted,
            is_compressed: self.is_compressed,
            is_encrypted: self.is_encrypted,
            version: self.version,
            crc: self.crc,
        }
    }
}

pub open spec fn entry_views(v: Seq<FileEntry>) -> Seq<EntryModel> {
    Seq::new(v.len(), |i: int| v[i]@)
}

/// A storage file of the index and its entries.
#[derive(Debug, Clone, PartialEq, Eq)]
pub struct StorageIndex {
    pub filename: String,
    pub entries: Vec<FileEntry>,
}

pub struct StorageModel {
    pub filename: Seq<char>,
    pub entries: Seq<EntryModel>,
}

impl View for StorageIndex {
    type V = StorageModel;

    open spec fn view(&self) -> StorageModel {
        StorageModel { filename: self.filename@, entries: entry_views(self.entries@) }
    }
}

pub open spec fn storage_views(v: Seq<StorageIndex>) -> Seq<StorageModel> {
    Seq::new(v.len(), |i: int| v[i]@)
}

/// The index: its two version numbers and its storage files (the root
/// storage, which holds no files, left out).
#[derive(Debug, Clone, PartialEq, Eq)]
pub struct VfsIndexData {
    pub base_version: u32,
    pub current_version: u32,
    pub storages: Vec<StorageIndex>,
}

pub struct IndexModel {
    pub base_version: u32,
    pub current_version: u32,
    pub storages: Seq<StorageModel>,
}

impl View for VfsIndexData {
    type V = IndexModel;

    open spec fn view(&self) -> IndexModel {
        IndexModel {
            base_version: self.base_version,
            current_version: self.current_version,
            storages: storage_views(self.storages@),
        }
    }
}

/// Why an index could not be read.
#[derive(Debug, Clone, Copy, PartialEq, Eq, Structural)]
pub enum VfsIndexError {
    /// The data ends inside a header, a name, a count or an entry.
    UnexpectedEnd,
}

/// A name at `p`: its raw bytes and the position after it.
pub open spec fn name_at(b: Seq<u8>, p: int) -> Option<(Seq<u8>, int)> {
    if 0 <= p && p + 2 <= b.len() && p + 2 + le_u16(b, p) <= b.len() {
        Some((b.subrange(p + 2, p + 2 + le_u16(b, p)), p + 2 + le_u16(b, p)))
    } else {
        None
    }
}

/// An entry at `p`: its name, three `u32`s (offset, size, block size), three
/// flag bytes (deleted, compressed, encrypted) and two `u32`s (version, CRC).
pub open spec fn entry_at(b: Seq<u8>, p: int) -> Option<(EntryModel, int)> {
    match name_at(b, p) {
        None => None,
        Some((raw, q)) => if q + 23 <= b.len() {
            Some(
                (
                    EntryModel {
                        path: vfs_text(raw),
                        offset: word(b, q) as nat,
                        size: word(b, q + 4) as nat,
                        block_size: word(b, q + 8),
                        is_deleted: b[q + 12],
                        is_compressed: b[q + 13],
                        is_encrypted: b[q + 14],
                        version: word(b, q + 15),
                        crc: word(b, q + 19),
                    },
                    q + 23,
                ),
            )
        } else {
            None
        },
    }
}

pub open spec fn entry_item() -> spec_fn(Seq<u8>, int) -> Option<(EntryModel, int)> {
    |b: Seq<u8>, p: int| entry_at(b, p)
}

/// The root storage's name, in lower case.
pub open spec fn root_vfs_name() -> Seq<char> {
    seq!['r', 'o', 'o', 't', '.', 'v', 'f', 's']
}

/// The name is `ROOT.VFS` without regard to ASCII case.
pub open spec fn is_root_name(s: Seq<char>) -> bool {
    ascii_lower(s) == root_vfs_name()
}

/// A storage record at `q`: its name and the offset of its entry list, where
/// a file count and two unused `u32`s come before the entries. The root
/// storage is read past and gives nothing.
pub open spec fn record_at(b: Seq<u8>, q: int) -> Option<(Option<StorageModel>, int)> {
    match name_at(b, q) {
        None => None,
        Some((raw, q1)) => match u32_at(b, q1) {
            None => None,
            Some((off, q2)) => if off + 12 > b.len() {
                None
            } else if is_root_name(vfs_text(raw)) {
                Some((None, q2))
            } else {
                match list_at(b, off + 12, word(b, off as int) as nat, entry_item()) {
                    None => None,
                    Some((es, _)) => Some(
                        (Some(StorageModel { filename: vfs_text(raw), entries: es }), q2),
                    ),
                }
            },
        },
    }
}

/// The first `k` storage records from `p`: the storages they give and the
/// position after the last record.
pub open spec fn records_at(b: Seq<u8>, p: int, k: nat) -> Option<(Seq<StorageModel>, int)>
    decreases k,
{
    if k == 0 {
        Some((Seq::<StorageModel>::empty(), p))
    } else {
        match records_at(b, p, (k - 1) as nat) {
            None => None,
            Some((v, q)) => match record_at(b, q) {
                None => None,
                Some((o, q2)) => Some(
                    (
                        match o {
                            Some(s) => v.push(s),
                            None => v,
                        },
                        q2,
                    ),
                ),
            },
        }
    }
}

/// What reading `b` as an index gives: the base and current versions, the
/// storage count, then the storage records.
pub open spec fn vfs_parse(b: Seq<u8>) -> Result<IndexModel, VfsIndexError> {
    if b.len() < 12 {
        Err(VfsIndexError::UnexpectedEnd)
    } else {
        match records_at(b, 12, word(b, 8) as nat) {
            None => Err(VfsIndexError::UnexpectedEnd),
            Some((ss, _)) => Ok(
                IndexModel { base_version: word(b, 0), current_version: word(b, 4), storages: ss },
            ),
        }
    }
}

fn read_name(b: &[u8], p: usize) -> (r: Option<(String, usize)>)
    ensures
        match name_at(b@, p as int) {
            None => r is None,
            Some((raw, q)) => r matches Some((s, q2)) && s@ == vfs_text(raw) && q2 == q,
        },
{
    let len = b.len();
    if p > len || len - p < 2 {
        return None;
    }
    let n = read_u16_le(b, p) as usize;
    if len - (p + 2) < n {
        return None;
    }
    let s = decode_vfs_string(&b[p + 2..p + 2 + n]);
    Some((s, p + 2 + n))
}

fn read_entry(b: &[u8], p: usize) -> (r: Option<(FileEntry, usize)>)
    ensures
        match entry_at(b@, p as int) {
            None => r is None,
            Some((e, q)) => r matches Some((f, q2)) && f@ == e && q2 == q,
        },
{
    let (path, q) = match read_name(b, p) {
        Some(x) => x,
        None => {
            return None;
        },
    };
    if b.len() - q < 23 {
        return None;
    }
    let offset = read_u32_le(b, q);
    let size = read_u32_le(b, q + 4);
    let block_size = read_u32_le(b, q + 8);
    let is_deleted = b[q + 12];
    let is_compressed = b[q + 13];
    let is_encrypted = b[q + 14];
    let version = read_u32_le(b, q + 15);
    let crc = read_u32_le(b, q + 19);
    Some(
        (
            FileEntry {
                path,
                offset: offset as usize,
                size: size as usize,
                block_size,
                is_deleted,
                is_compressed,
                is_encrypted,
                version,
                crc,
            },
            q + 23,
        ),
    )
}

fn read_entries(b: &[u8], p: usize, n: u32) -> (r: Option<(Vec<FileEntry>, usize)>)
    requires
        p <= b@.len(),
    ensures
        match list_at(b@, p as int, n as nat, entry_item()) {
            None => r is None,
            Some((es, q)) => r matches Some((v, q2)) && entry_views(v@) == es && q2 == q,
        },
{
    let mut out: Vec<FileEntry> = Vec::new();
    let mut q = p;
    let mut i: u32 = 0;
    while i < n
        invariant
            i <= n,
            list_at(b@, p as int, i as nat, entry_item()) == Some((entry_views(out@), q as int)),
        decreases n - i,
    {
        match read_entry(b, q) {
            Some((e, q2)) => {
                proof {
                    lemma_list_step(b@, p as int, i as nat, entry_item(), entry_views(out@), q as int, e@, q2 as int);
                }
                let ghost before = out@;
                out.push(e);
                assert(entry_views(out@) =~= entry_views(before).push(e@));
                q = q2;
            },
            None => {
                proof {
                    assert(list_at(b@, p as int, (i + 1) as nat, entry_item()) is None) by {
                        assert(((i + 1) as nat - 1) as nat == i as nat);
                    }
                    lemma_list_stop(b@, p as int, (i + 1) as nat, n as nat, entry_item());
                }
                return None;
            },
        }
        i = i + 1;
    }
    Some((out, q))
}

fn is_root_vfs(name: &str) -> (r: bool)
    ensures
        r == is_root_name(name@),
{
    let root = "ROOT.VFS";
    proof {
        reveal_strlit("ROOT.VFS");
        assert(ascii_lower(root@) =~= root_vfs_name());
    }
    same_name(name, root)
}

/// Reads an index: the two version numbers and every storage but the root
/// one, with its entries in index order.
pub fn parse_vfs_index(data: &[u8]) -> (r: Result<VfsIndexData, VfsIndexError>)
    ensures
        match vfs_parse(data@) {
            Ok(m) => r matches Ok(x) && x@ == m,
            Err(e) => r == Err::<VfsIndexData, VfsIndexError>(e),
        },
{
    let b = data;
    if b.len() < 12 {
        return Err(VfsIndexError::UnexpectedEnd);
    }
    let base_version = read_u32_le(b, 0);
    let current_version = read_u32_le(b, 4);
    let count = read_u32_le(b, 8);
    let mut storages: Vec<StorageIndex> = Vec::new();
    let mut p: usize = 12;
    let mut k: u32 = 0;
    while k < count
        invariant
            k <= count,
            b@ == data@,
            count as int == word(b@, 8),
            b@.len() >= 12,
            p <= b@.len(),
            records_at(b@, 12, k as nat) == Some((storage_views(storages@), p as int)),
        decreases count - k,
    {
        let ghost before = storages@;
        proof {
            assert(((k + 1) as nat - 1) as nat == k as nat);
        }
        let (filename, q1) = match read_name(b, p) {
            Some(x) => x,
            None => {
                proof {
                    assert(record_at(b@, p as int) is None);
                    assert(records_at(b@, 12, (k + 1) as nat) is None);
                    lemma_records_stop(b@, (k + 1) as nat, count as nat);
                }
                return Err(VfsIndexError::UnexpectedEnd);
            },
        };
        if b.len() - q1 < 4 {
            proof {
                assert(u32_at(b@, q1 as int) is None);
                assert(record_at(b@, p as int) is None);
                assert(records_at(b@, 12, (k + 1) as nat) is None);
                lemma_records_stop(b@, (k + 1) as nat, count as nat);
            }
            return Err(VfsIndexError::UnexpectedEnd);
        }
        let off = read_u32_le(b, q1);
        let q2 = q1 + 4;
        if off as usize > b.len() || b.len() - (off as usize) < 12 {
            proof {
                assert(u32_at(b@, q1 as int) == Some((off, q2 as int)));
                assert(record_at(b@, p as int) is None);
                assert(records_at(b@, 12, (k + 1) as nat) is None);
                lemma_records_stop(b@, (k + 1) as nat, count as nat);
            }
            return Err(VfsIndexError::UnexpectedEnd);
        }
        let num_files = read_u32_le(b, off as usize);
        if !is_root_vfs(filename.as_str()) {
            let (entries, _end) = match read_entries(b, off as usize + 12, num_files) {
                Some(x) => x,
                None => {
                    proof {
                        lemma_records_stop(b@, (k + 1) as nat, count as nat);
                    }
                    return Err(VfsIndexError::UnexpectedEnd);
                },
            };
            let s = StorageIndex { filename, entries };
            storages.push(s);
            assert(storage_views(storages@) =~= storage_views(before).push(s@));
        }
        p = q2;
        k = k + 1;
    }
    Ok(VfsIndexData { base_version, current_version, storages })
}

proof fn lemma_records_stop(b: Seq<u8>, i: nat, n: nat)
    requires
        i <= n,
        records_at(b, 12, i) is None,
    ensures
        records_at(b, 12, n) is None,
    decreases n - i,
{
    if i < n {
        assert(records_at(b, 12, (i + 1) as nat) is None) by {
            assert(((i + 1) as nat - 1) as nat == i);
        }
        lemma_records_stop(b, (i + 1) as nat, n);
    }
}

// ---------------------------------------------------------------- writing the index

/// `n` zero bytes.
pub open spec fn zeros(n: nat) -> Seq<u8> {
    Seq::new(n, |i: int| 0u8)
}

/// An entry as the index writes it: its path with backslashes, its numbers
/// cut to 32 bits and its flag bytes.
pub open spec fn entry_record(e: EntryModel) -> Seq<u8> {
    vstr(backslashed(e.path)) + u32_le_bytes(low32(e.offset)) + u32_le_bytes(low32(e.size))
        + u32_le_bytes(e.block_size) + seq![e.is_deleted, e.is_compressed, e.is_encrypted]
        + u32_le_bytes(e.version) + u32_le_bytes(e.crc)
}

pub open spec fn entries_bytes(es: Seq<EntryModel>) -> Seq<u8>
    decreases es.len(),
{
    if es.len() == 0 {
        Seq::<u8>::empty()
    } else {
        entries_bytes(es.drop_last()) + entry_record(es.last())
    }
}

/// A storage's entry list: the entry count, two zero `u32`s, the entries.
pub open spec fn meta_bytes(s: StorageModel) -> Seq<u8> {
    u32_le_bytes(low32(s.entries.len())) + zeros(8) + entries_bytes(s.entries)
}

pub open spec fn metas_bytes(ss: Seq<StorageModel>) -> Seq<u8>
    decreases ss.len(),
{
    if ss.len() == 0 {
        Seq::<u8>::empty()
    } else {
        metas_bytes(ss.drop_last()) + meta_bytes(ss.last())
    }
}

/// Bytes of the storage records (name and offset) of `ss`.
pub open spec fn names_len(ss: Seq<StorageModel>) -> nat
    decreases ss.len(),
{
    if ss.len() == 0 {
        0
    } else {
        names_len(ss.drop_last()) + vstr(ss.last().filename).len() + 4
    }
}

/// The storage records of `ss`, whose entry lists start at `first`, one after
/// another.
pub open spec fn name_records(ss: Seq<StorageModel>, first: nat) -> Seq<u8>
    decreases ss.len(),
{
    if ss.len() == 0 {
        Seq::<u8>::empty()
    } else {
        name_records(ss.drop_last(), first) + vstr(ss.last().filename) + u32_le_bytes(
            low32(first + metas_bytes(ss.drop_last()).len()),
        )
    }
}

/// `ROOT.VFS`.
pub open spec fn root_vfs_upper() -> Seq<char> {
    seq!['R', 'O', 'O', 'T', '.', 'V', 'F', 'S']
}

/// Where the root storage's (empty) entry list stands.
pub open spec fn root_offset(ss: Seq<StorageModel>) -> nat {
    12 + vstr(root_vfs_upper()).len() + 4 + names_len(ss)
}

/// The index bytes written for `ss`: the versions, the storage count with
/// the root storage, the root record and one record per storage, the root's
/// empty entry list, then each storage's entry list.
#[verifier::opaque]
pub open spec fn vfs_index_bytes(base: u32, current: u32, ss: Seq<StorageModel>) -> Seq<u8> {
    u32_le_bytes(base) + u32_le_bytes(current) + u32_le_bytes(low32(ss.len() + 1)) + vstr(
        root_vfs_upper(),
    ) + u32_le_bytes(low32(root_offset(ss))) + name_records(ss, root_offset(ss) + 12) + zeros(
        12,
    ) + metas_bytes(ss)
}

/// Every name and path can be encoded.
pub open spec fn encodable(ss: Seq<StorageModel>) -> bool {
    forall|i: int|
        0 <= i < ss.len() ==> {
            &&& encode_utf8(#[trigger] ss[i].filename).len() <= 0x1000_0000
            &&& forall|j: int|
                0 <= j < ss[i].entries.len() ==> encode_utf8(#[trigger] ss[i].entries[j].path).len()
                    <= 0x1000_0000
        }
}

proof fn lemma_low32_add(a: nat, x: nat)
    ensures
        low32((low32(a) + x) as nat) == low32(a + x),
{
    let m: int = 0x1_0000_0000;
    vstd::arithmetic::div_mod::lemma_add_mod_noop(a as int, x as int, m);
    vstd::arithmetic::div_mod::lemma_add_mod_noop(a as int % m, x as int, m);
    vstd::arithmetic::div_mod::lemma_mod_twice(a as int, m);
}

/// `a + x` cut to 32 bits.
fn add32(a: u32, x: u64) -> (r: u32)
    ensures
        r == low32((a + x) as nat),
{
    let xr = x % 0x1_0000_0000;
    let s = (a as u64 + xr) % 0x1_0000_0000;
    proof {
        vstd::arithmetic::div_mod::lemma_add_mod_noop(a as int, x as int, 0x1_0000_0000);
        vstd::arithmetic::div_mod::lemma_small_mod(a as nat, 0x1_0000_0000);
    }
    s as u32
}

proof fn lemma_backslashed_len(p: Seq<char>)
    ensures
        encode_utf8(backslashed(p)).len() == encode_utf8(p).len(),
    decreases p.len(),
{
    if p.len() > 0 {
        assert(backslashed(p).drop_first() =~= backslashed(p.drop_first()));
        lemma_backslashed_len(p.drop_first());
        assert(backslashed(p)[0] == '\\' || backslashed(p)[0] == p[0]);
        if p[0] == '/' {
            assert(encode_scalar(backslashed(p)[0] as u32).len() == 1);
            assert(encode_scalar(p[0] as u32).len() == 1);
        }
    }
}

/// Appends an entry as the index writes it.
fn write_entry(out: &mut Vec<u8>, e: &FileEntry)
    requires
        encode_utf8(e.path@).len() <= 0x1000_0000,
    ensures
        final(out)@ == old(out)@ + entry_record(e@),
{
    let path = format_vfs_path(e.path.as_str());
    proof {
        lemma_backslashed_len(e.path@);
    }
    write_vfs_string(out, path.as_str());
    push_u32_le(out, (e.offset as u64 % 0x1_0000_0000) as u32);
    push_u32_le(out, (e.size as u64 % 0x1_0000_0000) as u32);
    push_u32_le(out, e.block_size);
    out.push(e.is_deleted);
    out.push(e.is_compressed);
    out.push(e.is_encrypted);
    push_u32_le(out, e.version);
    push_u32_le(out, e.crc);
    assert(final(out)@ =~= old(out)@ + entry_record(e@));
}

/// Appends a storage's entry list as the index writes it.
fn write_meta(out: &mut Vec<u8>, s: &StorageIndex)
    requires
        forall|j: int| 0 <= j < s.entries@.len() ==> encode_utf8(#[trigger] s.entries@[j].path@).len() <= 0x1000_0000,
    ensures
        final(out)@ == old(out)@ + meta_bytes(s@),
{
    let n = s.entries.len();
    push_u32_le(out, (n as u64 % 0x1_0000_0000) as u32);
    push_u32_le(out, 0);
    push_u32_le(out, 0);
    let ghost head = out@;
    assert(head =~= old(out)@ + u32_le_bytes(low32(s@.entries.len())) + zeros(8));
    let mut j: usize = 0;
    while j < n
        invariant
            j <= n,
            n == s.entries@.len(),
            forall|k: int| 0 <= k < s.entries@.len() ==> encode_utf8(#[trigger] s.entries@[k].path@).len() <= 0x1000_0000,
            out@ == head + entries_bytes(entry_views(s.entries@).take(j as int)),
        decreases n - j,
    {
        let ghost before = out@;
        write_entry(out, &s.entries[j]);
        proof {
            let es = entry_views(s.entries@);
            assert(es.take(j + 1).drop_last() =~= es.take(j as int));
            assert(es.take(j + 1).last() == s.entries@[j as int]@);
        }
        j = j + 1;
    }
    assert(entry_views(s.entries@).take(n as int) =~= entry_views(s.entries@));
    assert(final(out)@ =~= old(out)@ + meta_bytes(s@));
}

/// The entry lists of the storages one after another, where each starts
/// among them, and the record bytes of their names cut to 32 bits.
fn collect_metas(storages: &Vec<StorageIndex>) -> (r: (Vec<u8>, Vec<usize>, u32))
    requires
        encodable(storage_views(storages@)),
    ensures
        r.0@ == metas_bytes(storage_views(storages@)),
        r.1@.len() == storages@.len(),
        forall|k: int|
            0 <= k < storages@.len() ==> #[trigger] r.1@[k] == metas_bytes(
                storage_views(storages@).take(k),
            ).len(),
        r.2 == low32(names_len(storage_views(storages@))),
{
    let ghost ss = storage_views(storages@);
    let n = storages.len();
    let mut metas: Vec<u8> = Vec::new();
    let mut starts: Vec<usize> = Vec::new();
    let mut names32: u32 = 0;
    let mut i: usize = 0;
    while i < n
        invariant
            i <= n,
            n == storages@.len(),
            ss == storage_views(storages@),
            encodable(ss),
            metas@ == metas_bytes(ss.take(i as int)),
            starts@.len() == i,
            forall|k: int| 0 <= k < i ==> #[trigger] starts@[k] == metas_bytes(ss.take(k)).len(),
            names32 == low32(names_len(ss.take(i as int))),
        decreases n - i,
    {
        let ghost si = ss[i as int];
        proof {
            assert(ss.take(i + 1).drop_last() =~= ss.take(i as int));
            assert(ss.take(i + 1).last() == si);
            assert(si == storages@[i as int]@);
            assert(encode_utf8(si.filename).len() <= 0x1000_0000);
        }
        starts.push(metas.len());
        assert forall|j: int| 0 <= j < storages@[i as int].entries@.len() implies encode_utf8(
            #[trigger] storages@[i as int].entries@[j].path@,
        ).len() <= 0x1000_0000 by {
            assert(si.entries[j] == storages@[i as int].entries@[j]@);
            assert(encode_utf8(si.entries[j].path).len() <= 0x1000_0000);
        }
        write_meta(&mut metas, &storages[i]);
        let mut tmp: Vec<u8> = Vec::new();
        write_vfs_string(&mut tmp, storages[i].filename.as_str());
        let t = add32(names32, tmp.len() as u64);
        proof {
            lemma_low32_add(names_len(ss.take(i as int)), tmp@.len());
        }
        let t2 = add32(t, 4);
        proof {
            lemma_low32_add(names_len(ss.take(i as int)) + tmp@.len(), 4);
        }
        names32 = t2;
        i = i + 1;
    }
    assert(ss.take(n as int) =~= ss);
    (metas, starts, names32)
}

/// Appends the storage records, entry lists starting at `first` (`base12` is
/// `first` cut to 32 bits).
fn write_records(out: &mut Vec<u8>, storages: &Vec<StorageIndex>, starts: &Vec<usize>, base12: u32, first: Ghost<nat>)
    requires
        encodable(storage_views(storages@)),
        starts@.len() == storages@.len(),
        forall|k: int|
            0 <= k < storages@.len() ==> #[trigger] starts@[k] == metas_bytes(
                storage_views(storages@).take(k),
            ).len(),
        base12 == low32(first@),
    ensures
        final(out)@ == old(out)@ + name_records(storage_views(storages@), first@),
{
    let ghost ss = storage_views(storages@);
    let ghost head = out@;
    let n = storages.len();
    let mut k: usize = 0;
    while k < n
        invariant
            k <= n,
            n == storages@.len(),
            ss == storage_views(storages@),
            encodable(ss),
            starts@.len() == n,
            forall|q: int| 0 <= q < n ==> #[trigger] starts@[q] == metas_bytes(ss.take(q)).len(),
            base12 == low32(first@),
            out@ == head + name_records(ss.take(k as int), first@),
        decreases n - k,
    {
        let ghost sk = ss[k as int];
        proof {
            assert(ss.take(k + 1).drop_last() =~= ss.take(k as int));
            assert(ss.take(k + 1).last() == sk);
            assert(sk == storages@[k as int]@);
            assert(encode_utf8(sk.filename).len() <= 0x1000_0000);
        }
        write_vfs_string(out, storages[k].filename.as_str());
        let off = add32(base12, starts[k] as u64);
        proof {
            lemma_low32_add(first@, starts@[k as int] as nat);
        }
        push_u32_le(out, off);
        k = k + 1;
    }
    assert(ss.take(n as int) =~= ss);
}

/// The index bytes for a list of storages and their entries, as the game
/// reads them back.
#[verifier::rlimit(30)]
pub fn build_index_bytes(base_version: u32, current_version: u32, storages: &Vec<StorageIndex>) -> (out: Vec<u8>)
    requires
        encodable(storage_views(storages@)),
    ensures
        out@ == vfs_index_bytes(base_version, current_version, storage_views(storages@)),
{
    let ghost ss = storage_views(storages@);
    let n = storages.len();
    let (mut metas, starts, names32) = collect_metas(storages);
    let mut out: Vec<u8> = Vec::new();
    push_u32_le(&mut out, base_version);
    push_u32_le(&mut out, current_version);
    let count = add32(1, n as u64);
    push_u32_le(&mut out, count);
    let ghost p1 = out@;
    assert(p1 =~= u32_le_bytes(base_version) + u32_le_bytes(current_version) + u32_le_bytes(
        low32(ss.len() + 1),
    ));
    let root = "ROOT.VFS";
    proof {
        reveal_strlit("ROOT.VFS");
        assert(root@ =~= root_vfs_upper());
        is_ascii_chars_encode_utf8(root@);
    }
    write_vfs_string(&mut out, root);
    let ghost root_name = out@;
    assert(root_name == p1 + vstr(root_vfs_upper()));
    assert(root_name.len() == 12 + vstr(root_vfs_upper()).len());
    let root_off = root_offset32(out.len(), names32, Ghost(names_len(ss)));
    assert(root_off == low32(root_offset(ss)));
    push_u32_le(&mut out, root_off);
    let ghost p2 = out@;
    let base12 = add32(root_off, 12);
    proof {
        lemma_low32_add(root_offset(ss), 12);
    }
    write_records(&mut out, storages, &starts, base12, Ghost((root_offset(ss) + 12) as nat));
    let ghost p3 = out@;
    push_u32_le(&mut out, 0);
    push_u32_le(&mut out, 0);
    push_u32_le(&mut out, 0);
    let ghost p4 = out@;
    assert(p4 =~= p3 + zeros(12));
    out.append(&mut metas);
    assert(out@ == p4 + metas_bytes(ss));
    proof {
        reveal(vfs_index_bytes);
    }
    out
}

/// `len + 4 + names` cut to 32 bits, where `names32` is `names` cut to 32 bits.
fn root_offset32(len: usize, names32: u32, names: Ghost<nat>) -> (r: u32)
    requires
        names32 == low32(names@),
    ensures
        r == low32((len + 4 + names@) as nat),
{
    let r1 = add32(0, len as u64);
    let r2 = add32(r1, 4);
    proof {
        lemma_low32_add(len as nat, 4);
    }
    let r3 = add32(r2, names32 as u64);
    proof {
        lemma_low32_add((len + 4) as nat, names@);
        lemma_low32_add(names@, (len + 4) as nat);
    }
    r3
}

// ---------------------------------------------------------------- reading back what was written

/// A name that reads back as itself: ASCII without NUL characters, short
/// enough for its length (with the NUL byte) to fit in 16 bits.
pub open spec fn name_ok(s: Seq<char>) -> bool {
    plain_text(s) && s.len() + 1 < 0x1_0000
}

/// An entry as the index gives it back: its path with backslashes and its
/// numbers cut to 32 bits.
pub open spec fn written_entry(e: EntryModel) -> EntryModel {
    EntryModel { path: backslashed(e.path), offset: low32(e.offset) as nat, size: low32(e.size) as nat, ..e }
}

pub open spec fn written_entries(es: Seq<EntryModel>) -> Seq<EntryModel> {
    Seq::new(es.len(), |j: int| written_entry(es[j]))
}

pub open spec fn written_storages(ss: Seq<StorageModel>) -> Seq<StorageModel> {
    Seq::new(
        ss.len(),
        |i: int| StorageModel { filename: ss[i].filename, entries: written_entries(ss[i].entries) },
    )
}

/// What an index must hold to be read back as written: names and paths read
/// back as themselves, no storage is named like the root storage, and the
/// whole index fits the 32-bit offsets it uses.
pub open spec fn index_round_trips(base: u32, current: u32, ss: Seq<StorageModel>) -> bool {
    &&& forall|i: int|
        0 <= i < ss.len() ==> {
            &&& name_ok(#[trigger] ss[i].filename)
            &&& !is_root_name(ss[i].filename)
            &&& forall|j: int| 0 <= j < ss[i].entries.len() ==> name_ok(#[trigger] ss[i].entries[j].path)
        }
    &&& vfs_index_bytes(base, current, ss).len() < 0x1_0000_0000
}

proof fn lemma_plain_backslashed(p: Seq<char>)
    requires
        name_ok(p),
    ensures
        name_ok(backslashed(p)),
{
    assert forall|i: int| 0 <= i < backslashed(p).len() implies '\0' <= #[trigger] backslashed(p)[i]
        <= '\u{7f}' && backslashed(p)[i] != '\0' by {
        assert('\0' <= p[i] <= '\u{7f}' && p[i] != '\0');
    }
}

proof fn lemma_vstr_reads(b: Seq<u8>, p: int, s: Seq<char>)
    requires
        name_ok(s),
        stands_at(b, p, vstr(s)),
    ensures
        vstr(s).len() == s.len() + 3,
        name_at(b, p) == Some((encode_text(s).push(0u8), p + vstr(s).len())),
        vfs_text(encode_text(s).push(0u8)) == s,
{
    lemma_plain_bytes(s);
    let e = encode_utf8(s);
    let raw = e.push(0u8);
    let x = ((s.len() + 1) % 0x1_0000) as u16;
    assert(x == s.len() + 1);
    assert(vstr(s) == u16_le_bytes(x) + raw);
    lemma_subrange_split(b, p, u16_le_bytes(x), raw);
    lemma_le_u16_at(b, p, x);
    assert(strip_one_nul(raw) =~= e);
    assert(ascii_chars_of(e) == decode_text(e, false));
}

proof fn lemma_entry_reads(b: Seq<u8>, p: int, e: EntryModel)
    requires
        name_ok(e.path),
        stands_at(b, p, entry_record(e)),
    ensures
        entry_at(b, p) == Some((written_entry(e), p + entry_record(e).len())),
{
    let path = backslashed(e.path);
    lemma_plain_backslashed(e.path);
    let name = vstr(path);
    let w1 = u32_le_bytes(low32(e.offset));
    let w2 = u32_le_bytes(low32(e.size));
    let w3 = u32_le_bytes(e.block_size);
    let flags = seq![e.is_deleted, e.is_compressed, e.is_encrypted];
    let w4 = u32_le_bytes(e.version);
    let w5 = u32_le_bytes(e.crc);
    assert(entry_record(e) == name + w1 + w2 + w3 + flags + w4 + w5);
    lemma_subrange_split(b, p, name + w1 + w2 + w3 + flags + w4, w5);
    lemma_subrange_split(b, p, name + w1 + w2 + w3 + flags, w4);
    lemma_subrange_split(b, p, name + w1 + w2 + w3, flags);
    lemma_subrange_split(b, p, name + w1 + w2, w3);
    lemma_subrange_split(b, p, name + w1, w2);
    lemma_subrange_split(b, p, name, w1);
    lemma_vstr_reads(b, p, path);
    let q = p + name.len();
    lemma_le_u32_at(b, q, low32(e.offset));
    lemma_le_u32_at(b, q + 4, low32(e.size));
    lemma_le_u32_at(b, q + 8, e.block_size);
    lemma_le_u32_at(b, q + 15, e.version);
    lemma_le_u32_at(b, q + 19, e.crc);
    assert(b[q + 12] == b.subrange(q + 12, q + 15)[0]);
    assert(b[q + 13] == b.subrange(q + 12, q + 15)[1]);
    assert(b[q + 14] == b.subrange(q + 12, q + 15)[2]);
}

proof fn lemma_entries_read(b: Seq<u8>, p: int, es: Seq<EntryModel>)
    requires
        forall|j: int| 0 <= j < es.len() ==> name_ok(#[trigger] es[j].path),
        stands_at(b, p, entries_bytes(es)),
    ensures
        list_at(b, p, es.len(), entry_item()) == Some((written_entries(es), p + entries_bytes(es).len())),
    decreases es.len(),
{
    if es.len() > 0 {
        let init = es.drop_last();
        lemma_subrange_split(b, p, entries_bytes(init), entry_record(es.last()));
        assert forall|j: int| 0 <= j < init.len() implies name_ok(#[trigger] init[j].path) by {
            assert(init[j] == es[j]);
        }
        lemma_entries_read(b, p, init);
        assert(name_ok(es[es.len() - 1].path));
        lemma_entry_reads(b, p + entries_bytes(init).len(), es.last());
        assert(((es.len() - 1) as nat) == init.len());
        assert(written_entries(init).push(written_entry(es.last())) =~= written_entries(es));
    } else {
        assert(written_entries(es) =~= Seq::<EntryModel>::empty());
    }
}

proof fn lemma_stands_prefix(b: Seq<u8>, p: int, x: Seq<u8>, n: int)
    requires
        stands_at(b, p, x),
        0 <= n <= x.len(),
    ensures
        stands_at(b, p, x.subrange(0, n)),
{
    assert(b.subrange(p, p + n) =~= b.subrange(p, p + x.len()).subrange(0, n));
}

proof fn lemma_metas_prefix(ss: Seq<StorageModel>, k: int)
    requires
        0 <= k <= ss.len(),
    ensures
        metas_bytes(ss.take(k)).len() <= metas_bytes(ss).len(),
        metas_bytes(ss).subrange(0, metas_bytes(ss.take(k)).len() as int) == metas_bytes(ss.take(k)),
    decreases ss.len(),
{
    if k == ss.len() {
        assert(ss.take(k) =~= ss);
        assert(metas_bytes(ss).subrange(0, metas_bytes(ss).len() as int) =~= metas_bytes(ss));
    } else {
        let init = ss.drop_last();
        lemma_metas_prefix(init, k);
        assert(init.take(k) =~= ss.take(k));
        let m = metas_bytes(ss.take(k)).len() as int;
        assert(metas_bytes(ss).subrange(0, m) =~= metas_bytes(init).subrange(0, m));
    }
}

proof fn lemma_name_records_prefix(ss: Seq<StorageModel>, first: nat, k: int)
    requires
        0 <= k <= ss.len(),
    ensures
        name_records(ss, first).len() == names_len(ss),
        name_records(ss.take(k), first).len() == names_len(ss.take(k)),
        names_len(ss.take(k)) <= names_len(ss),
        name_records(ss, first).subrange(0, names_len(ss.take(k)) as int) == name_records(ss.take(k), first),
    decreases ss.len(),
{
    if ss.len() == 0 {
        assert(ss.take(k) =~= ss);
    } else {
        let init = ss.drop_last();
        if k == ss.len() {
            lemma_name_records_prefix(init, first, 0);
            assert(ss.take(k) =~= ss);
            assert(name_records(ss, first).subrange(0, names_len(ss) as int) =~= name_records(ss, first));
        } else {
            lemma_name_records_prefix(init, first, k);
            assert(init.take(k) =~= ss.take(k));
            let m = names_len(ss.take(k)) as int;
            assert(name_records(ss, first).subrange(0, m) =~= name_records(init, first).subrange(0, m));
        }
    }
}

proof fn lemma_entries_len(es: Seq<EntryModel>)
    ensures
        entries_bytes(es).len() >= es.len(),
    decreases es.len(),
{
    if es.len() > 0 {
        lemma_entries_len(es.drop_last());
    }
}

proof fn lemma_root_name()
    ensures
        name_ok(root_vfs_upper()),
        is_root_name(root_vfs_upper()),
        vstr(root_vfs_upper()).len() == 11,
{
    let r = root_vfs_upper();
    assert forall|i: int| 0 <= i < r.len() implies '\0' <= #[trigger] r[i] <= '\u{7f}' && r[i] != '\0' by {}
    assert(lower_char('R') == 'r');
    assert(lower_char('O') == 'o');
    assert(lower_char('T') == 't');
    assert(lower_char('.') == '.');
    assert(lower_char('V') == 'v');
    assert(lower_char('F') == 'f');
    assert(lower_char('S') == 's');
    assert(ascii_lower(r) =~= root_vfs_name());
    lemma_plain_bytes(r);
}

/// Where each part of written index bytes stands.
proof fn lemma_index_layout(base: u32, current: u32, ss: Seq<StorageModel>)
    ensures
        ({
            let b = vfs_index_bytes(base, current, ss);
            let rv = vstr(root_vfs_upper());
            let r0 = 12 + rv.len() as int + 4;
            &&& b.len() >= 12
            &&& word(b, 0) == base
            &&& word(b, 4) == current
            &&& word(b, 8) == low32(ss.len() + 1)
            &&& stands_at(b, 12, rv)
            &&& stands_at(b, 12 + rv.len() as int, u32_le_bytes(low32(root_offset(ss))))
            &&& stands_at(b, r0, name_records(ss, root_offset(ss) + 12))
            &&& root_offset(ss) == r0 + names_len(ss)
            &&& stands_at(b, root_offset(ss) as int, zeros(12))
            &&& stands_at(b, root_offset(ss) as int + 12, metas_bytes(ss))
            &&& b.len() == root_offset(ss) + 12 + metas_bytes(ss).len()
        }),
{
    reveal(vfs_index_bytes);
    let b = vfs_index_bytes(base, current, ss);
    let h0 = u32_le_bytes(base);
    let h1 = u32_le_bytes(current);
    let h2 = u32_le_bytes(low32(ss.len() + 1));
    let rv = vstr(root_vfs_upper());
    let ro = u32_le_bytes(low32(root_offset(ss)));
    let nr = name_records(ss, root_offset(ss) + 12);
    let z = zeros(12);
    let m = metas_bytes(ss);
    lemma_name_records_prefix(ss, (root_offset(ss) + 12) as nat, 0);
    assert(b == h0 + h1 + h2 + rv + ro + nr + z + m);
    assert(stands_at(b, 0, b)) by {
        assert(b.subrange(0, b.len() as int) =~= b);
    }
    lemma_subrange_split(b, 0, h0 + h1 + h2 + rv + ro + nr + z, m);
    lemma_subrange_split(b, 0, h0 + h1 + h2 + rv + ro + nr, z);
    lemma_subrange_split(b, 0, h0 + h1 + h2 + rv + ro, nr);
    lemma_subrange_split(b, 0, h0 + h1 + h2 + rv, ro);
    lemma_subrange_split(b, 0, h0 + h1 + h2, rv);
    lemma_subrange_split(b, 0, h0 + h1, h2);
    lemma_subrange_split(b, 0, h0, h1);
    lemma_le_u32_at(b, 0, base);
    lemma_le_u32_at(b, 4, current);
    lemma_le_u32_at(b, 8, low32(ss.len() + 1));
}

proof fn lemma_root_layout(base: u32, current: u32, ss: Seq<StorageModel>)
    ensures
        stands_at(vfs_index_bytes(base, current, ss), 12, vstr(root_vfs_upper())),
        stands_at(vfs_index_bytes(base, current, ss), 23, u32_le_bytes(low32(root_offset(ss)))),
        root_offset(ss) + 12 <= vfs_index_bytes(base, current, ss).len(),
{
    lemma_root_name();
    lemma_index_layout(base, current, ss);
}

proof fn lemma_root_record(base: u32, current: u32, ss: Seq<StorageModel>)
    requires
        vfs_index_bytes(base, current, ss).len() < 0x1_0000_0000,
    ensures
        record_at(vfs_index_bytes(base, current, ss), 12) == Some((None::<StorageModel>, 27int)),
{
    let b = vfs_index_bytes(base, current, ss);
    let ro = root_offset(ss);
    lemma_root_layout(base, current, ss);
    lemma_root_name();
    lemma_vstr_reads(b, 12, root_vfs_upper());
    lemma_le_u32_at(b, 23, low32(ro));
    assert(low32(ro) == ro);
    assert(u32_at(b, 23) == Some((ro as u32, 27int)));
}

/// Where the record and the entry list of `ss[j]` stand.
#[verifier::rlimit(40)]
proof fn lemma_record_layout(base: u32, current: u32, ss: Seq<StorageModel>, j: int)
    requires
        0 <= j < ss.len(),
    ensures
        ({
            let b = vfs_index_bytes(base, current, ss);
            let q = 27 + names_len(ss.take(j)) as int;
            let name = vstr(ss[j].filename);
            let off = root_offset(ss) + 12 + metas_bytes(ss.take(j)).len() as int;
            let es = ss[j].entries;
            &&& stands_at(b, q, name)
            &&& stands_at(b, q + name.len(), u32_le_bytes(low32(off as nat)))
            &&& stands_at(b, off, u32_le_bytes(low32(es.len())))
            &&& stands_at(b, off + 12, entries_bytes(es))
            &&& names_len(ss.take(j + 1)) == names_len(ss.take(j)) + name.len() + 4
        }),
{
    let b = vfs_index_bytes(base, current, ss);
    let first = (root_offset(ss) + 12) as nat;
    let k = j + 1;
    lemma_index_layout(base, current, ss);
    lemma_root_name();
    let r0 = 27int;
    let sj = ss[j];
    let q = r0 + names_len(ss.take(j));
    lemma_name_records_prefix(ss, first, k);
    lemma_name_records_prefix(ss, first, j);
    let nr = name_records(ss, first);
    lemma_stands_prefix(b, r0, nr, names_len(ss.take(k)) as int);
    assert(ss.take(k).drop_last() =~= ss.take(j));
    assert(ss.take(k).last() == sj);
    let off = first + metas_bytes(ss.take(j)).len();
    let rec = vstr(sj.filename) + u32_le_bytes(low32(off));
    assert(name_records(ss.take(k), first) == name_records(ss.take(j), first) + rec);
    lemma_subrange_split(b, r0, name_records(ss.take(j), first), rec);
    lemma_subrange_split(b, q, vstr(sj.filename), u32_le_bytes(low32(off)));
    lemma_metas_prefix(ss, k);
    lemma_stands_prefix(b, first as int, metas_bytes(ss), metas_bytes(ss.take(k)).len() as int);
    assert(metas_bytes(ss.take(k)) == metas_bytes(ss.take(j)) + meta_bytes(sj));
    lemma_subrange_split(b, first as int, metas_bytes(ss.take(j)), meta_bytes(sj));
    let es = sj.entries;
    lemma_subrange_split(b, off as int, u32_le_bytes(low32(es.len())) + zeros(8), entries_bytes(es));
    lemma_subrange_split(b, off as int, u32_le_bytes(low32(es.len())), zeros(8));
}

/// The storage record of `ss[j]` reads back as that storage.
#[verifier::spinoff_prover]
#[verifier::rlimit(40)]
proof fn lemma_storage_record(base: u32, current: u32, ss: Seq<StorageModel>, j: int)
    requires
        index_round_trips(base, current, ss),
        0 <= j < ss.len(),
    ensures
        record_at(vfs_index_bytes(base, current, ss), 27 + names_len(ss.take(j)) as int) == Some(
            (
                Some(StorageModel { filename: ss[j].filename, entries: written_entries(ss[j].entries) }),
                27 + names_len(ss.take(j + 1)) as int,
            ),
        ),
{
    let b = vfs_index_bytes(base, current, ss);
    let sj = ss[j];
    let es = sj.entries;
    let q = 27 + names_len(ss.take(j)) as int;
    let off = root_offset(ss) + 12 + metas_bytes(ss.take(j)).len() as int;
    assert(name_ok(sj.filename) && !is_root_name(sj.filename));
    assert forall|i: int| 0 <= i < es.len() implies name_ok(#[trigger] es[i].path) by {
        assert(name_ok(ss[j].entries[i].path));
    }
    let raw = encode_text(sj.filename).push(0u8);
    let q1 = q + vstr(sj.filename).len();
    assert(name_at(b, q) == Some((raw, q1)) && vfs_text(raw) == sj.filename) by {
        lemma_record_layout(base, current, ss, j);
        lemma_vstr_reads(b, q, sj.filename);
    }
    assert(u32_at(b, q1) == Some((off as u32, q1 + 4)) && off + 12 <= b.len()) by {
        lemma_record_layout(base, current, ss, j);
        lemma_vstr_reads(b, q, sj.filename);
        lemma_entries_len(es);
        assert(low32(off as nat) == off);
        lemma_le_u32_at(b, q1, low32(off as nat));
    }
    assert(word(b, off) == es.len()) by {
        lemma_record_layout(base, current, ss, j);
        lemma_le_u32_at(b, off as int, low32(es.len()));
        lemma_entries_len(es);
        assert(low32(es.len()) == es.len());
    }
    assert(list_at(b, off + 12, es.len(), entry_item()) == Some(
        (written_entries(es), off + 12 + entries_bytes(es).len()),
    )) by {
        lemma_record_layout(base, current, ss, j);
        lemma_entries_read(b, off as int + 12, es);
    }
    assert(names_len(ss.take(j + 1)) == names_len(ss.take(j)) + vstr(sj.filename).len() + 4) by {
        lemma_record_layout(base, current, ss, j);
    }
}

proof fn lemma_records_read(base: u32, current: u32, ss: Seq<StorageModel>, k: int)
    requires
        index_round_trips(base, current, ss),
        0 <= k <= ss.len(),
    ensures
        records_at(vfs_index_bytes(base, current, ss), 12, (k + 1) as nat) == Some(
            (written_storages(ss.take(k)), 27 + names_len(ss.take(k)) as int),
        ),
    decreases k,
{
    let b = vfs_index_bytes(base, current, ss);
    if k == 0 {
        lemma_root_record(base, current, ss);
        assert(records_at(b, 12, 0) == Some((Seq::<StorageModel>::empty(), 12int)));
        assert(written_storages(ss.take(0)) =~= Seq::<StorageModel>::empty());
        assert(names_len(ss.take(0)) == 0);
    } else {
        let j = k - 1;
        lemma_records_read(base, current, ss, j);
        lemma_storage_record(base, current, ss, j);
        let ws = StorageModel { filename: ss[j].filename, entries: written_entries(ss[j].entries) };
        assert(written_storages(ss.take(j)).push(ws) =~= written_storages(ss.take(k)));
        assert(((k + 1) as nat - 1) as nat == (j + 1) as nat);
    }
}

/// Reading back an index written for some storages gives those storages in
/// order, each with its name and entries, an entry's path with backslashes
/// and its offset and size cut to 32 bits, when every name and path is ASCII
/// without NUL characters and short, no storage is named like the root
/// storage, and the index fits in 32-bit offsets.
#[verifier::spinoff_prover]
#[verifier::rlimit(60)]
pub proof fn lemma_vfs_index_round_trip(base: u32, current: u32, ss: Seq<StorageModel>)
    requires
        index_round_trips(base, current, ss),
    ensures
        vfs_parse(vfs_index_bytes(base, current, ss)) == Ok::<IndexModel, VfsIndexError>(
            IndexModel { base_version: base, current_version: current, storages: written_storages(ss) },
        ),
{
    let b = vfs_index_bytes(base, current, ss);
    let n = ss.len();
    assert(b.len() >= 12 && word(b, 0) == base && word(b, 4) == current && word(b, 8) == n + 1) by {
        lemma_index_layout(base, current, ss);
        lemma_names_len_count(ss);
        assert(low32(n + 1) == n + 1);
    }
    assert(records_at(b, 12, (n + 1) as nat) == Some((written_storages(ss), 27 + names_len(ss) as int))) by {
        lemma_records_read(base, current, ss, n as int);
        assert(ss.take(n as int) =~= ss);
    }
}

proof fn lemma_names_len_count(ss: Seq<StorageModel>)
    ensures
        names_len(ss) >= ss.len(),
    decreases ss.len(),
{
    if ss.len() > 0 {
        lemma_names_len_count(ss.drop_last());
    }
}

// ---------------------------------------------------------------- finding files

/// The last entry of `es` that is not deleted and has the path `path`: the
/// one a lookup of that path finds.
pub open spec fn live_entry(es: Seq<EntryModel>, path: Seq<char>) -> Option<int>
    decreases es.len(),
{
    if es.len() == 0 {
        None
    } else if es.last().is_deleted == 0 && es.last().path == path {
        Some(es.len() - 1)
    } else {
        live_entry(es.drop_last(), path)
    }
}

/// The first storage that holds a live entry with path `path`.
pub open spec fn storage_of(ss: Seq<StorageModel>, path: Seq<char>) -> Option<int>
    decreases ss.len(),
{
    if ss.len() == 0 {
        None
    } else {
        match storage_of(ss.drop_last(), path) {
            Some(i) => Some(i),
            None => if live_entry(ss.last().entries, path) is Some {
                Some(ss.len() - 1)
            } else {
                None
            },
        }
    }
}

impl StorageIndex {
    /// The index of the live entry with path `path`, if the storage has one.
    pub fn find(&self, path: &String) -> (r: Option<usize>)
        ensures
            r matches Some(k) ==> live_entry(self@.entries, path@) == Some(k as int),
            r is None ==> live_entry(self@.entries, path@) is None,
    {
        let mut i = self.entries.len();
        assert(self@.entries.take(i as int) =~= self@.entries);
        while i > 0
            invariant
                i <= self.entries@.len(),
                live_entry(self@.entries, path@) == live_entry(self@.entries.take(i as int), path@),
            decreases i,
        {
            let ghost es = self@.entries.take(i as int);
            proof {
                assert(es.drop_last() =~= self@.entries.take(i - 1));
                assert(es.last() == self.entries@[i - 1]@);
            }
            let e = &self.entries[i - 1];
            if e.is_deleted == 0 && e.path == *path {
                return Some(i - 1);
            }
            i = i - 1;
        }
        None
    }
}

impl VfsIndexData {
    /// Where the file `path` is: the first storage that holds it and the
    /// entry there.
    pub fn locate(&self, path: &String) -> (r: Option<(usize, usize)>)
        ensures
            match storage_of(self@.storages, path@) {
                Some(i) => r matches Some((si, ei)) && si == i && live_entry(
                    self@.storages[i].entries,
                    path@,
                ) == Some(ei as int),
                None => r is None,
            },
    {
        let n = self.storages.len();
        let mut i: usize = 0;
        while i < n
            invariant
                i <= n,
                n == self.storages@.len(),
                storage_of(self@.storages.take(i as int), path@) is None,
            decreases n - i,
        {
            let ghost ss = self@.storages.take(i + 1);
            proof {
                assert(ss.drop_last() =~= self@.storages.take(i as int));
                assert(ss.last() == self.storages@[i as int]@);
            }
            match self.storages[i].find(path) {
                Some(e) => {
                    proof {
                        assert(live_entry(ss.last().entries, path@) == Some(e as int));
                        assert(storage_of(ss, path@) == Some(i as int));
                        lemma_storage_of_prefix(self@.storages, path@, i + 1);
                        assert(self@.storages[i as int] == ss.last());
                    }
                    return Some((i, e));
                },
                None => {},
            }
            i = i + 1;
        }
        assert(self@.storages.take(n as int) =~= self@.storages);
        None
    }
}

/// Where a prefix already finds the file, the whole list finds it there.
proof fn lemma_storage_of_prefix(ss: Seq<StorageModel>, path: Seq<char>, k: int)
    requires
        0 <= k <= ss.len(),
        storage_of(ss.take(k), path) is Some,
    ensures
        storage_of(ss, path) == storage_of(ss.take(k), path),
    decreases ss.len(),
{
    if k == ss.len() {
        assert(ss.take(k) =~= ss);
    } else {
        assert(ss.drop_last().take(k) =~= ss.take(k));
        lemma_storage_of_prefix(ss.drop_last(), path, k);
    }
}

// ---------------------------------------------------------------- rewriting storages

/// Why a rewrite cannot be made.
#[derive(Debug, Clone, PartialEq, Eq)]
pub enum VfsRewriteError {
    /// A replacement names a file that no storage holds.
    MissingFile(String),
    /// An entry's bytes lie outside its storage file.
    InvalidEntryBounds(String),
}

/// Replacements as values: each path and its new bytes.
pub open spec fn rep_views(v: Seq<(String, Vec<u8>)>) -> Seq<(Seq<char>, Seq<u8>)> {
    Seq::new(v.len(), |i: int| (v[i].0@, v[i].1@))
}

/// The new bytes for `path`: those of the first replacement that names it.
pub open spec fn replacement_for(reps: Seq<(Seq<char>, Seq<u8>)>, path: Seq<char>) -> Option<Seq<u8>>
    decreases reps.len(),
{
    if reps.len() == 0 {
        None
    } else if reps[0].0 == path {
        Some(reps[0].1)
    } else {
        replacement_for(reps.drop_first(), path)
    }
}

/// The bytes a live entry keeps: its replacement, else its bytes in the
/// storage file (none when they lie outside it).
pub open spec fn content_of(e: EntryModel, data: Seq<u8>, reps: Seq<(Seq<char>, Seq<u8>)>) -> Option<Seq<u8>> {
    match replacement_for(reps, e.path) {
        Some(r) => Some(r),
        None => if e.offset + e.size <= data.len() {
            Some(data.subrange(e.offset as int, (e.offset + e.size) as int))
        } else {
            None
        },
    }
}

/// A storage file rebuilt from its entries: live entries' bytes one after
/// another (their offsets, sizes and block sizes updated), deleted entries
/// kept with zero offset, size and block size; the path of the first live
/// entry whose bytes cannot be had, if any.
pub open spec fn rebuilt(es: Seq<EntryModel>, data: Seq<u8>, reps: Seq<(Seq<char>, Seq<u8>)>) -> Result<(Seq<u8>, Seq<EntryModel>), Seq<char>>
    decreases es.len(),
{
    if es.len() == 0 {
        Ok((Seq::<u8>::empty(), Seq::<EntryModel>::empty()))
    } else {
        match rebuilt(es.drop_last(), data, reps) {
            Err(p) => Err(p),
            Ok((bytes, out)) => {
                let e = es.last();
                if e.is_deleted != 0 {
                    Ok((bytes, out.push(EntryModel { offset: 0, size: 0, block_size: 0, ..e })))
                } else {
                    match content_of(e, data, reps) {
                        None => Err(e.path),
                        Some(c) => Ok(
                            (
                                bytes + c,
                                out.push(
                                    EntryModel {
                                        offset: bytes.len(),
                                        size: c.len(),
                                        block_size: low32(c.len()),
                                        ..e
                                    },
                                ),
                            ),
                        ),
                    }
                }
            },
        }
    }
}

fn find_replacement<'a>(reps: &'a Vec<(String, Vec<u8>)>, path: &String) -> (r: Option<&'a Vec<u8>>)
    ensures
        match replacement_for(rep_views(reps@), path@) {
            Some(b) => r matches Some(v) && v@ == b,
            None => r is None,
        },
{
    let n = reps.len();
    let mut i: usize = 0;
    assert(rep_views(reps@).skip(0) =~= rep_views(reps@));
    while i < n
        invariant
            i <= n,
            n == reps@.len(),
            replacement_for(rep_views(reps@), path@) == replacement_for(
                rep_views(reps@).skip(i as int),
                path@,
            ),
        decreases n - i,
    {
        let ghost rest = rep_views(reps@).skip(i as int);
        proof {
            assert(rest.drop_first() =~= rep_views(reps@).skip(i + 1));
            assert(rest[0] == (reps@[i as int].0@, reps@[i as int].1@));
        }
        if reps[i].0 == *path {
            return Some(&reps[i].1);
        }
        i = i + 1;
    }
    assert(rep_views(reps@).skip(n as int) =~= Seq::<(Seq<char>, Seq<u8>)>::empty());
    None
}

fn copy_entry(e: &FileEntry, offset: usize, size: usize, block_size: u32) -> (r: FileEntry)
    ensures
        r@ == (EntryModel { offset: offset as nat, size: size as nat, block_size, ..e@ }),
{
    FileEntry {
        path: e.path.clone(),
        offset,
        size,
        block_size,
        is_deleted: e.is_deleted,
        is_compressed: e.is_compressed,
        is_encrypted: e.is_encrypted,
        version: e.version,
        crc: e.crc,
    }
}

proof fn lemma_rebuilt_err_stays(es: Seq<EntryModel>, data: Seq<u8>, reps: Seq<(Seq<char>, Seq<u8>)>, k: int)
    requires
        0 <= k <= es.len(),
        rebuilt(es.take(k), data, reps) is Err,
    ensures
        rebuilt(es, data, reps) == rebuilt(es.take(k), data, reps),
    decreases es.len(),
{
    if k == es.len() {
        assert(es.take(k) =~= es);
    } else {
        assert(es.drop_last().take(k) =~= es.take(k));
        lemma_rebuilt_err_stays(es.drop_last(), data, reps, k);
    }
}

/// Rebuilds a storage file: every live entry's bytes (its replacement, or its
/// bytes in `data`) one after another, and the entries updated to match.
pub fn build_storage_bytes(entries: &Vec<FileEntry>, data: &[u8], replacements: &Vec<(String, Vec<u8>)>) -> (r: Result<(Vec<u8>, Vec<FileEntry>), VfsRewriteError>)
    ensures
        match rebuilt(entry_views(entries@), data@, rep_views(replacements@)) {
            Ok((bytes, es)) => r matches Ok((v, f)) && v@ == bytes && entry_views(f@) == es,
            Err(p) => r matches Err(VfsRewriteError::InvalidEntryBounds(q)) && q@ == p,
        },
{
    let ghost ev = entry_views(entries@);
    let ghost reps = rep_views(replacements@);
    let n = entries.len();
    let mut bytes: Vec<u8> = Vec::new();
    let mut out: Vec<FileEntry> = Vec::new();
    let mut i: usize = 0;
    assert(ev.take(0) =~= Seq::<EntryModel>::empty());
    assert(entry_views(out@) =~= Seq::<EntryModel>::empty());
    while i < n
        invariant
            i <= n,
            n == entries@.len(),
            ev == entry_views(entries@),
            reps == rep_views(replacements@),
            rebuilt(ev.take(i as int), data@, reps) == Ok::<(Seq<u8>, Seq<EntryModel>), Seq<char>>(
                (bytes@, entry_views(out@)),
            ),
        decreases n - i,
    {
        let ghost pre = ev.take(i + 1);
        proof {
            assert(pre.drop_last() =~= ev.take(i as int));
            assert(pre.last() == entries@[i as int]@);
        }
        let e = &entries[i];
        let ghost before = out@;
        let ghost old_bytes = bytes@;
        if e.is_deleted != 0 {
            let f = copy_entry(e, 0, 0, 0);
            out.push(f);
            assert(entry_views(out@) =~= entry_views(before).push(f@));
            assert(rebuilt(pre, data@, reps) == Ok::<(Seq<u8>, Seq<EntryModel>), Seq<char>>((bytes@, entry_views(out@))));
        } else {
            let content: &[u8] = match find_replacement(replacements, &e.path) {
                Some(r) => r.as_slice(),
                None => {
                    if e.offset > data.len() || data.len() - e.offset < e.size {
                        proof {
                            assert(rebuilt(pre, data@, reps) == Err::<(Seq<u8>, Seq<EntryModel>), Seq<char>>(e.path@));
                            lemma_rebuilt_err_stays(ev, data@, reps, i + 1);
                            assert(ev.take(n as int) =~= ev);
                        }
                        return Err(VfsRewriteError::InvalidEntryBounds(e.path.clone()));
                    }
                    let piece = &data[e.offset..e.offset + e.size];
                    assert(piece@ =~= data@.subrange(e.offset as int, e.offset + e.size));
                    piece
                },
            };
            assert(content_of(e@, data@, reps) == Some(content@));
            let start = bytes.len();
            let size = content.len();
            let block = (size as u64 % 0x1_0000_0000) as u32;
            let f = copy_entry(e, start, size, block);
            bytes.extend_from_slice(content);
            out.push(f);
            assert(entry_views(out@) =~= entry_views(before).push(f@));
            assert(bytes@ == old_bytes + content@);
            assert(f@ == (EntryModel { offset: old_bytes.len(), size: content@.len(), block_size: low32(content@.len()), ..e@ }));
            assert(rebuilt(pre, data@, reps) == Ok::<(Seq<u8>, Seq<EntryModel>), Seq<char>>((bytes@, entry_views(out@))));
        }
        i = i + 1;
    }
    assert(ev.take(n as int) =~= ev);
    Ok((bytes, out))
}

/// After a rebuild every entry keeps its path and flags; a deleted entry has
/// no bytes, and a live entry's bytes (its replacement, or its old bytes)
/// stand in the new storage bytes at its new offset.
pub proof fn lemma_rebuilt_keeps_contents(
    es: Seq<EntryModel>,
    data: Seq<u8>,
    reps: Seq<(Seq<char>, Seq<u8>)>,
    bytes: Seq<u8>,
    out: Seq<EntryModel>,
)
    requires
        rebuilt(es, data, reps) == Ok::<(Seq<u8>, Seq<EntryModel>), Seq<char>>((bytes, out)),
    ensures
        out.len() == es.len(),
        forall|i: int|
            0 <= i < es.len() ==> {
                &&& (#[trigger] out[i]).path == es[i].path
                &&& out[i].is_deleted == es[i].is_deleted
                &&& es[i].is_deleted != 0 ==> out[i].offset == 0 && out[i].size == 0
                &&& es[i].is_deleted == 0 ==> out[i].offset + out[i].size <= bytes.len() && content_of(
                    es[i],
                    data,
                    reps,
                ) == Some(bytes.subrange(out[i].offset as int, (out[i].offset + out[i].size) as int))
            },
    decreases es.len(),
{
    if es.len() > 0 {
        let init = es.drop_last();
        match rebuilt(init, data, reps) {
            Ok((b0, o0)) => {
                lemma_rebuilt_keeps_contents(init, data, reps, b0, o0);
                let e = es.last();
                assert forall|i: int| 0 <= i < es.len() implies {
                    &&& (#[trigger] out[i]).path == es[i].path
                    &&& out[i].is_deleted == es[i].is_deleted
                    &&& es[i].is_deleted != 0 ==> out[i].offset == 0 && out[i].size == 0
                    &&& es[i].is_deleted == 0 ==> out[i].offset + out[i].size <= bytes.len() && content_of(
                        es[i],
                        data,
                        reps,
                    ) == Some(bytes.subrange(out[i].offset as int, (out[i].offset + out[i].size) as int))
                } by {
                    if i < es.len() - 1 {
                        assert(out[i] == o0[i]);
                        assert(es[i] == init[i]);
                        if es[i].is_deleted == 0 {
                            assert(bytes.subrange(out[i].offset as int, (out[i].offset + out[i].size) as int)
                                =~= b0.subrange(out[i].offset as int, (out[i].offset + out[i].size) as int));
                        }
                    } else {
                        if e.is_deleted == 0 {
                            let c = content_of(e, data, reps).unwrap();
                            assert(bytes == b0 + c);
                            assert(bytes.subrange(b0.len() as int, (b0.len() + c.len()) as int) =~= c);
                        }
                    }
                }
            },
            Err(_) => {},
        }
    }
}

/// The storage that holds the file of each replacement, for the first
/// replacement whose file no storage holds: its path.
pub open spec fn first_missing(ss: Seq<StorageModel>, reps: Seq<(Seq<char>, Seq<u8>)>) -> Option<Seq<char>>
    decreases reps.len(),
{
    if reps.len() == 0 {
        None
    } else if storage_of(ss, reps[0].0) is None {
        Some(reps[0].0)
    } else {
        first_missing(ss, reps.drop_first())
    }
}

/// Storage `i` holds the file of some replacement.
pub open spec fn touched(ss: Seq<StorageModel>, reps: Seq<(Seq<char>, Seq<u8>)>, i: int) -> bool {
    exists|j: int| 0 <= j < reps.len() && storage_of(ss, #[trigger] reps[j].0) == Some(i)
}

/// The first `k` storages after a rewrite: the touched ones rebuilt (their new
/// bytes listed with their index), the others unchanged; the path of the
/// first entry, in storage order, whose bytes cannot be had.
pub open spec fn updated_upto(
    ss: Seq<StorageModel>,
    data: Seq<Seq<u8>>,
    reps: Seq<(Seq<char>, Seq<u8>)>,
    k: nat,
) -> Result<(Seq<(nat, Seq<u8>)>, Seq<StorageModel>), Seq<char>>
    decreases k,
{
    if k == 0 {
        Ok((Seq::<(nat, Seq<u8>)>::empty(), Seq::<StorageModel>::empty()))
    } else {
        match updated_upto(ss, data, reps, (k - 1) as nat) {
            Err(p) => Err(p),
            Ok((files, out)) => {
                let i = k - 1;
                if touched(ss, reps, i) {
                    match rebuilt(ss[i].entries, data[i], reps) {
                        Err(p) => Err(p),
                        Ok((b, es)) => Ok(
                            (
                                files.push((i as nat, b)),
                                out.push(StorageModel { filename: ss[i].filename, entries: es }),
                            ),
                        ),
                    }
                } else {
                    Ok((files, out.push(ss[i])))
                }
            },
        }
    }
}

/// What a rewrite writes: each rebuilt storage file (by its index in the
/// index) and the new index.
pub struct RewritePlan {
    pub storage_files: Vec<(usize, Vec<u8>)>,
    pub index_bytes: Vec<u8>,
}

pub open spec fn data_views(v: Seq<&[u8]>) -> Seq<Seq<u8>> {
    Seq::new(v.len(), |i: int| v[i]@)
}

pub open spec fn file_views(v: Seq<(usize, Vec<u8>)>) -> Seq<(nat, Seq<u8>)> {
    Seq::new(v.len(), |i: int| (v[i].0 as nat, v[i].1@))
}

fn copy_storage(s: &StorageIndex) -> (r: StorageIndex)
    ensures
        r@ == s@,
{
    let mut entries: Vec<FileEntry> = Vec::new();
    let n = s.entries.len();
    let mut i: usize = 0;
    while i < n
        invariant
            i <= n,
            n == s.entries@.len(),
            entry_views(entries@) == entry_views(s.entries@).take(i as int),
        decreases n - i,
    {
        let e = &s.entries[i];
        let ghost before = entries@;
        let c = copy_entry(e, e.offset, e.size, e.block_size);
        assert(c@ == s.entries@[i as int]@);
        entries.push(c);
        assert(entry_views(entries@) =~= entry_views(before).push(c@));
        assert(entry_views(entries@) =~= entry_views(s.entries@).take(i + 1));
        i = i + 1;
    }
    assert(entry_views(s.entries@).take(n as int) =~= entry_views(s.entries@));
    StorageIndex { filename: s.filename.clone(), entries }
}

proof fn lemma_updated_err_stays(
    ss: Seq<StorageModel>,
    data: Seq<Seq<u8>>,
    reps: Seq<(Seq<char>, Seq<u8>)>,
    k: nat,
    n: nat,
)
    requires
        k <= n,
        updated_upto(ss, data, reps, k) is Err,
    ensures
        updated_upto(ss, data, reps, n) == updated_upto(ss, data, reps, k),
    decreases n - k,
{
    if k < n {
        lemma_updated_err_stays(ss, data, reps, k, (n - 1) as nat);
    }
}

/// A rewrite keeps every storage's name and every entry's path.
proof fn lemma_updated_shape(
    ss: Seq<StorageModel>,
    data: Seq<Seq<u8>>,
    reps: Seq<(Seq<char>, Seq<u8>)>,
    k: nat,
)
    requires
        k <= ss.len(),
        updated_upto(ss, data, reps, k) is Ok,
    ensures
        updated_upto(ss, data, reps, k) matches Ok((files, out)) && out.len() == k && forall|i: int|
            0 <= i < k ==> {
                &&& (#[trigger] out[i]).filename == ss[i].filename
                &&& out[i].entries.len() == ss[i].entries.len()
                &&& forall|j: int|
                    0 <= j < out[i].entries.len() ==> #[trigger] out[i].entries[j].path
                        == ss[i].entries[j].path
            },
    decreases k,
{
    if k > 0 {
        lemma_updated_shape(ss, data, reps, (k - 1) as nat);
        let i = k - 1;
        if touched(ss, reps, i) {
            match rebuilt(ss[i].entries, data[i], reps) {
                Ok((b, es)) => {
                    lemma_rebuilt_keeps_contents(ss[i].entries, data[i], reps, b, es);
                },
                Err(_) => {},
            }
        }
    }
}

/// Plans a rewrite that gives some files new bytes: the storage files that
/// hold them rebuilt, and the index written anew. Nothing is planned when
/// nothing is replaced.
pub fn plan_rewrite(index: &VfsIndexData, data: &Vec<&[u8]>, replacements: &Vec<(String, Vec<u8>)>) -> (r: Result<Option<RewritePlan>, VfsRewriteError>)
    requires
        data@.len() == index.storages@.len(),
        encodable(index@.storages),
    ensures
        replacements@.len() == 0 ==> r matches Ok(None),
        replacements@.len() > 0 ==> match first_missing(index@.storages, rep_views(replacements@)) {
            Some(p) => r matches Err(VfsRewriteError::MissingFile(q)) && q@ == p,
            None => match updated_upto(
                index@.storages,
                data_views(data@),
                rep_views(replacements@),
                index@.storages.len(),
            ) {
                Err(p) => r matches Err(VfsRewriteError::InvalidEntryBounds(q)) && q@ == p,
                Ok((files, ss2)) => r matches Ok(Some(plan)) && file_views(plan.storage_files@) == files
                    && plan.index_bytes@ == vfs_index_bytes(index.base_version, index.current_version, ss2),
            },
        },
{
    let ghost ss = index@.storages;
    let ghost reps = rep_views(replacements@);
    let ghost dv = data_views(data@);
    if replacements.len() == 0 {
        return Ok(None);
    }
    let n = index.storages.len();
    let mut flags: Vec<bool> = Vec::new();
    let mut i: usize = 0;
    while i < n
        invariant
            i <= n,
            flags@.len() == i,
            forall|t: int| 0 <= t < i ==> !flags@[t],
        decreases n - i,
    {
        flags.push(false);
        i = i + 1;
    }
    let m = replacements.len();
    let mut j: usize = 0;
    assert(reps.skip(0) =~= reps);
    while j < m
        invariant
            j <= m,
            m == replacements@.len(),
            n == index.storages@.len(),
            ss == index@.storages,
            reps == rep_views(replacements@),
            flags@.len() == n,
            forall|t: int|
                0 <= t < n ==> (flags@[t] <==> exists|q: int|
                    0 <= q < j && storage_of(ss, #[trigger] reps[q].0) == Some(t)),
            first_missing(ss, reps) == first_missing(ss, reps.skip(j as int)),
        decreases m - j,
    {
        let ghost rest = reps.skip(j as int);
        proof {
            assert(rest.drop_first() =~= reps.skip(j + 1));
            assert(rest[0] == reps[j as int]);
            assert(reps[j as int].0 == replacements@[j as int].0@);
        }
        match index.locate(&replacements[j].0) {
            None => {
                return Err(VfsRewriteError::MissingFile(replacements[j].0.clone()));
            },
            Some((si, _e)) => {
                proof {
                    assert(storage_of(ss, reps[j as int].0) == Some(si as int));
                    lemma_storage_of_range(ss, reps[j as int].0);
                }
                let ghost old_flags = flags@;
                flags.set(si, true);
                assert forall|t: int| 0 <= t < n implies (flags@[t] <==> exists|q: int|
                    0 <= q < j + 1 && storage_of(ss, #[trigger] reps[q].0) == Some(t)) by {
                    if t == si {
                        assert(storage_of(ss, reps[j as int].0) == Some(t));
                    } else {
                        assert(flags@[t] == old_flags[t]);
                        if exists|q: int| 0 <= q < j + 1 && storage_of(ss, #[trigger] reps[q].0) == Some(t) {
                            let q = choose|q: int| 0 <= q < j + 1 && storage_of(ss, #[trigger] reps[q].0) == Some(t);
                            assert(q != j);
                        }
                    }
                }
            },
        }
        j = j + 1;
    }
    assert(reps.skip(m as int) =~= Seq::<(Seq<char>, Seq<u8>)>::empty());
    let mut files: Vec<(usize, Vec<u8>)> = Vec::new();
    let mut out: Vec<StorageIndex> = Vec::new();
    let mut k: usize = 0;
    assert(file_views(files@) =~= Seq::<(nat, Seq<u8>)>::empty());
    assert(storage_views(out@) =~= Seq::<StorageModel>::empty());
    while k < n
        invariant
            k <= n,
            n == index.storages@.len(),
            n == data@.len(),
            ss == index@.storages,
            reps == rep_views(replacements@),
            dv == data_views(data@),
            flags@.len() == n,
            first_missing(ss, reps) is None,
            m == replacements@.len(),
            m > 0,
            forall|t: int| 0 <= t < n ==> (flags@[t] <==> touched(ss, reps, t)),
            updated_upto(ss, dv, reps, k as nat) == Ok::<(Seq<(nat, Seq<u8>)>, Seq<StorageModel>), Seq<char>>(
                (file_views(files@), storage_views(out@)),
            ),
        decreases n - k,
    {
        proof {
            assert(ss[k as int] == index.storages@[k as int]@);
            assert(dv[k as int] == data@[k as int]@);
        }
        let ghost before_files = files@;
        let ghost before_out = out@;
        if flags[k] {
            match build_storage_bytes(&index.storages[k].entries, data[k], replacements) {
                Err(e) => {
                    proof {
                        assert(rebuilt(ss[k as int].entries, dv[k as int], reps) is Err);
                        assert(updated_upto(ss, dv, reps, (k + 1) as nat) == Err::<(Seq<(nat, Seq<u8>)>, Seq<StorageModel>), Seq<char>>(
                            rebuilt(ss[k as int].entries, dv[k as int], reps)->Err_0,
                        ));
                        lemma_updated_err_stays(ss, dv, reps, (k + 1) as nat, n as nat);
                    }
                    return Err(e);
                },
                Ok((b, es)) => {
                    let st = StorageIndex { filename: index.storages[k].filename.clone(), entries: es };
                    files.push((k, b));
                    out.push(st);
                    assert(file_views(files@) =~= file_views(before_files).push((k as nat, b@)));
                    assert(storage_views(out@) =~= storage_views(before_out).push(st@));
                },
            }
        } else {
            let st = copy_storage(&index.storages[k]);
            out.push(st);
            assert(file_views(files@) =~= file_views(before_files));
            assert(storage_views(out@) =~= storage_views(before_out).push(st@));
        }
        k = k + 1;
    }
    proof {
        lemma_updated_shape(ss, dv, reps, n as nat);
        let ss2 = storage_views(out@);
        assert forall|i: int| 0 <= i < ss2.len() implies {
            &&& encode_utf8(#[trigger] ss2[i].filename).len() <= 0x1000_0000
            &&& forall|j: int|
                0 <= j < ss2[i].entries.len() ==> encode_utf8(#[trigger] ss2[i].entries[j].path).len()
                    <= 0x1000_0000
        } by {
            assert(encode_utf8(ss[i].filename).len() <= 0x1000_0000);
            assert forall|j: int| 0 <= j < ss2[i].entries.len() implies encode_utf8(
                #[trigger] ss2[i].entries[j].path,
            ).len() <= 0x1000_0000 by {
                assert(ss2[i].entries[j].path == ss[i].entries[j].path);
                assert(encode_utf8(ss[i].entries[j].path).len() <= 0x1000_0000);
            }
        }
    }
    let bytes = build_index_bytes(index.base_version, index.current_version, &out);
    Ok(Some(RewritePlan { storage_files: files, index_bytes: bytes }))
}

proof fn lemma_storage_of_range(ss: Seq<StorageModel>, path: Seq<char>)
    ensures
        storage_of(ss, path) matches Some(i) ==> 0 <= i < ss.len(),
    decreases ss.len(),
{
    if ss.len() > 0 {
        lemma_storage_of_range(ss.drop_last(), path);
    }
}

/// An index entry is laid out as: a `u16` name length and the name, then
/// three little-endian `u32`s (offset, size, block size), then the flag
/// bytes in the order deleted, compressed, encrypted, then two `u32`s
/// (version, CRC) -- 23 bytes after the name.
pub proof fn lemma_entry_layout(b: Seq<u8>, p: int)
    requires
        0 <= p,
        p + 2 <= b.len(),
        p + 2 + b[p] + 256 * b[p + 1] + 23 <= b.len(),
    ensures
        ({
            let q = p + 2 + b[p] + 256 * b[p + 1];
            entry_at(b, p) matches Some((e, next)) && next == q + 23 && e.path == vfs_text(
                b.subrange(p + 2, q),
            ) && e.offset == le_u32(b, q) && e.size == le_u32(b, q + 4) && e.block_size == le_u32(
                b,
                q + 8,
            ) && e.is_deleted == b[q + 12] && e.is_compressed == b[q + 13] && e.is_encrypted == b[q
                + 14] && e.version == le_u32(b, q + 15) && e.crc == le_u32(b, q + 19)
        }),
{
    let q = p + 2 + b[p] + 256 * b[p + 1];
    assert(le_u16(b, p) == b[p] + 256 * b[p + 1]);
    assert(name_at(b, p) == Some((b.subrange(p + 2, q), q)));
}

/// The index writes an entry's flag bytes right after its three `u32`s in
/// the order deleted, compressed, encrypted, and the record ends two `u32`s
/// later.
pub proof fn lemma_entry_record_layout(e: EntryModel)
    ensures
        ({
            let n = vstr(backslashed(e.path)).len() as int;
            &&& entry_record(e).len() == n + 23
            &&& entry_record(e)[n + 12] == e.is_deleted
            &&& entry_record(e)[n + 13] == e.is_compressed
            &&& entry_record(e)[n + 14] == e.is_encrypted
            &&& entry_record(e).subrange(n, n + 4) == u32_le_bytes(low32(e.offset))
            &&& entry_record(e).subrange(n + 4, n + 8) == u32_le_bytes(low32(e.size))
        }),
{
    let name = vstr(backslashed(e.path));
    let n = name.len() as int;
    let w1 = u32_le_bytes(low32(e.offset));
    let w2 = u32_le_bytes(low32(e.size));
    let w3 = u32_le_bytes(e.block_size);
    let flags = seq![e.is_deleted, e.is_compressed, e.is_encrypted];
    let w4 = u32_le_bytes(e.version);
    let w5 = u32_le_bytes(e.crc);
    let r = entry_record(e);
    assert(r == name + w1 + w2 + w3 + flags + w4 + w5);
    assert(r[n + 12] == flags[0]);
    assert(r[n + 13] == flags[1]);
    assert(r[n + 14] == flags[2]);
    assert(r.subrange(n, n + 4) =~= w1);
    assert(r.subrange(n + 4, n + 8) =~= w2);
}

/// A lookup only ever finds a live entry of that very path: not deleted,
/// and the last such entry of the storage.
pub proof fn lemma_live_entry_is_live(es: Seq<EntryModel>, path: Seq<char>)
    ensures
        live_entry(es, path) matches Some(i) ==> 0 <= i < es.len() && es[i].is_deleted == 0
            && es[i].path == path && forall|j: int|
            i < j < es.len() ==> !(es[j].is_deleted == 0 && es[j].path == path),
        live_entry(es, path) is None ==> forall|j: int|
            0 <= j < es.len() ==> !(es[j].is_deleted == 0 && es[j].path == path),
    decreases es.len(),
{
    if es.len() > 0 {
        let init = es.drop_last();
        lemma_live_entry_is_live(init, path);
        assert forall|j: int| 0 <= j < init.len() implies #[trigger] init[j] == es[j] by {}
        if !(es.last().is_deleted == 0 && es.last().path == path) {
            assert forall|j: int| 0 <= j < es.len() && live_entry(es, path) is None implies !(
            es[j].is_deleted == 0 && es[j].path == path) by {
                if j < init.len() {
                    assert(init[j] == es[j]);
                }
            }
            if let Some(i) = live_entry(es, path) {
                assert forall|j: int| i < j < es.len() implies !(es[j].is_deleted == 0
                    && es[j].path == path) by {
                    if j < init.len() {
                        assert(init[j] == es[j]);
                    }
                }
            }
        }
    }
}

} // verus!
