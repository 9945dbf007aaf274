//! NPC shops as the shop editor sees them: item categories and the numbers
//! that encode them in the sell table, NPCs and the shop tabs they reference,
//! and the item lists of the category tables.
use vstd::prelude::*;
use vstd::std_specs::hash::*;
use std::collections::HashMap;

use crate::text::{parse_i32, parse_i32_spec};

verus! {

broadcast use vstd::std_specs::hash::group_hash_axioms;

/// Which table an item lives in. Its number is the item type of the game,
/// which also encodes shop slots: `type * 1000 + id`.
#[derive(Debug, Clone, Copy, PartialEq, Eq, Hash, Structural)]
pub enum ItemCategory {
    Face,
    Cap,
    Body,
    Arms,
    Foot,
    Back,
    Jewel,
    Weapon,
    SubWpn,
    UseItem,
    Gem,
    Natural,
    QuestItem,
    Vehicle,
}

/// The category with type number `n`.
pub open spec fn category_of_code(n: int) -> Option<ItemCategory> {
    if n == 1 {
        Some(ItemCategory::Face)
    } else if n == 2 {
        Some(ItemCategory::Cap)
    } else if n == 3 {
        Some(ItemCategory::Body)
    } else if n == 4 {
        Some(ItemCategory::Arms)
    } else if n == 5 {
        Some(ItemCategory::Foot)
    } else if n == 6 {
        Some(ItemCategory::Back)
    } else if n == 7 {
        Some(ItemCategory::Jewel)
    } else if n == 8 {
        Some(ItemCategory::Weapon)
    } else if n == 9 {
        Some(ItemCategory::SubWpn)
    } else if n == 10 {
        Some(ItemCategory::UseItem)
    } else if n == 11 {
        Some(ItemCategory::Gem)
    } else if n == 12 {
        Some(ItemCategory::Natural)
    } else if n == 13 {
        Some(ItemCategory::QuestItem)
    } else if n == 14 {
        Some(ItemCategory::Vehicle)
    } else {
        None
    }
}

impl ItemCategory {
    /// The type number, 1 to 14.
    pub open spec fn spec_code(self) -> i32 {
        match self {
            ItemCategory::Face => 1,
            ItemCategory::Cap => 2,
            ItemCategory::Body => 3,
            ItemCategory::Arms => 4,
            ItemCategory::Foot => 5,
            ItemCategory::Back => 6,
            ItemCategory::Jewel => 7,
            ItemCategory::Weapon => 8,
            ItemCategory::SubWpn => 9,
            ItemCategory::UseItem => 10,
            ItemCategory::Gem => 11,
            ItemCategory::Natural => 12,
            ItemCategory::QuestItem => 13,
            ItemCategory::Vehicle => 14,
        }
    }

    /// The type number, 1 to 14.
    pub fn code(&self) -> (r: i32)
        ensures
            r == self.spec_code(),
            1 <= r <= 14,
            category_of_code(r as int) == Some(*self),
    {
        match self {
            ItemCategory::Face => 1,
            ItemCategory::Cap => 2,
            ItemCategory::Body => 3,
            ItemCategory::Arms => 4,
            ItemCategory::Foot => 5,
            ItemCategory::Back => 6,
            ItemCategory::Jewel => 7,
            ItemCategory::Weapon => 8,
            ItemCategory::SubWpn => 9,
            ItemCategory::UseItem => 10,
            ItemCategory::Gem => 11,
            ItemCategory::Natural => 12,
            ItemCategory::QuestItem => 13,
            ItemCategory::Vehicle => 14,
        }
    }

    /// The category with type number `code`, if there is one.
    pub fn from_code(code: i32) -> (r: Option<ItemCategory>)
        ensures
            r == category_of_code(code as int),
    {
        match code {
            1 => Some(ItemCategory::Face),
            2 => Some(ItemCategory::Cap),
            3 => Some(ItemCategory::Body),
            4 => Some(ItemCategory::Arms),
            5 => Some(ItemCategory::Foot),
            6 => Some(ItemCategory::Back),
            7 => Some(ItemCategory::Jewel),
            8 => Some(ItemCategory::Weapon),
            9 => Some(ItemCategory::SubWpn),
            10 => Some(ItemCategory::UseItem),
            11 => Some(ItemCategory::Gem),
            12 => Some(ItemCategory::Natural),
            13 => Some(ItemCategory::QuestItem),
            14 => Some(ItemCategory::Vehicle),
            _ => None,
        }
    }

    /// Every category, in the order of their type numbers.
    pub fn all() -> (r: Vec<ItemCategory>)
        ensures
            r@.len() == 14,
            forall|i: int| 0 <= i < 14 ==> #[trigger] r@[i].spec_code() == i + 1,
    {
        vec![
            ItemCategory::Face,
            ItemCategory::Cap,
            ItemCategory::Body,
            ItemCategory::Arms,
            ItemCategory::Foot,
            ItemCategory::Back,
            ItemCategory::Jewel,
            ItemCategory::Weapon,
            ItemCategory::SubWpn,
            ItemCategory::UseItem,
            ItemCategory::Gem,
            ItemCategory::Natural,
            ItemCategory::QuestItem,
            ItemCategory::Vehicle,
        ]
    }

    /// The file name of the category's table.
    pub open spec fn spec_stb_name(self) -> Seq<char> {
        match self {
            ItemCategory::Face => "LIST_FACEITEM.STB"@,
            ItemCategory::Cap => "LIST_CAP.STB"@,
            ItemCategory::Body => "LIST_BODY.STB"@,
            ItemCategory::Arms => "LIST_ARMS.STB"@,
            ItemCategory::Foot => "LIST_FOOT.STB"@,
            ItemCategory::Back => "LIST_BACK.STB"@,
            ItemCategory::Jewel => "LIST_JEWEL.STB"@,
            ItemCategory::Weapon => "LIST_WEAPON.STB"@,
            ItemCategory::SubWpn => "LIST_SUBWPN.STB"@,
            ItemCategory::UseItem => "LIST_USEITEM.STB"@,
            ItemCategory::Gem => "LIST_JEMITEM.STB"@,
            ItemCategory::Natural => "LIST_NATURAL.STB"@,
            ItemCategory::QuestItem => "LIST_QUESTITEM.STB"@,
            ItemCategory::Vehicle => "LIST_PAT.STB"@,
        }
    }

    /// The file name of the category's table.
    pub fn stb_name(&self) -> (r: &'static str)
        ensures
            r@ == self.spec_stb_name(),
    {
        match self {
            ItemCategory::Face => "LIST_FACEITEM.STB",
            ItemCategory::Cap => "LIST_CAP.STB",
            ItemCategory::Body => "LIST_BODY.STB",
            ItemCategory::Arms => "LIST_ARMS.STB",
            ItemCategory::Foot => "LIST_FOOT.STB",
            ItemCategory::Back => "LIST_BACK.STB",
            ItemCategory::Jewel => "LIST_JEWEL.STB",
            ItemCategory::Weapon => "LIST_WEAPON.STB",
            ItemCategory::SubWpn => "LIST_SUBWPN.STB",
            ItemCategory::UseItem => "LIST_USEITEM.STB",
            ItemCategory::Gem => "LIST_JEMITEM.STB",
            ItemCategory::Natural => "LIST_NATURAL.STB",
            ItemCategory::QuestItem => "LIST_QUESTITEM.STB",
            ItemCategory::Vehicle => "LIST_PAT.STB",
        }
    }

    /// The name shown for the category.
    pub open spec fn spec_display(self) -> Seq<char> {
        match self {
            ItemCategory::Face => "Face"@,
            ItemCategory::Cap => "Helmet"@,
            ItemCategory::Body => "Body"@,
            ItemCategory::Arms => "Gauntlet"@,
            ItemCategory::Foot => "Boots"@,
            ItemCategory::Back => "Back"@,
            ItemCategory::Jewel => "Jewel"@,
            ItemCategory::Weapon => "Weapon"@,
            ItemCategory::SubWpn => "Sub Weapon"@,
            ItemCategory::UseItem => "Consumable"@,
            ItemCategory::Gem => "Gem"@,
            ItemCategory::Natural => "Material"@,
            ItemCategory::QuestItem => "Quest Item"@,
            ItemCategory::Vehicle => "Vehicle Part"@,
        }
    }

    /// The name shown for the category.
    pub fn display(&self) -> (r: &'static str)
        ensures
            r@ == self.spec_display(),
    {
        match self {
            ItemCategory::Face => "Face",
            ItemCategory::Cap => "Helmet",
            ItemCategory::Body => "Body",
            ItemCategory::Arms => "Gauntlet",
            ItemCategory::Foot => "Boots",
            ItemCategory::Back => "Back",
            ItemCategory::Jewel => "Jewel",
            ItemCategory::Weapon => "Weapon",
            ItemCategory::SubWpn => "Sub Weapon",
            ItemCategory::UseItem => "Consumable",
            ItemCategory::Gem => "Gem",
            ItemCategory::Natural => "Material",
            ItemCategory::QuestItem => "Quest Item",
            ItemCategory::Vehicle => "Vehicle Part",
        }
    }
}

/// What a sell-table slot value stands for: values above 1000 split into
/// `value / 1000`, which must name a category, and `value % 1000`.
pub open spec fn spec_decode_item_no(full: i32) -> Option<(ItemCategory, i32)> {
    if full <= 1000 {
        None
    } else {
        match category_of_code(full / 1000) {
            Some(c) => Some((c, (full % 1000) as i32)),
            None => None,
        }
    }
}

/// Splits a sell-table slot value into its category and item id.
pub fn decode_item_no(full: i32) -> (r: Option<(ItemCategory, i32)>)
    ensures
        r == spec_decode_item_no(full),
{
    if full <= 1000 {
        return None;
    }
    let ty = full / 1000;
    let id = full % 1000;
    match ItemCategory::from_code(ty) {
        Some(c) => Some((c, id)),
        None => None,
    }
}

/// The sell-table slot value of an item: `type * 1000 + id`.
pub fn encode_item_no(cat: ItemCategory, id: i32) -> (r: i32)
    requires
        cat.spec_code() * 1000 + id <= i32::MAX,
        cat.spec_code() * 1000 + id >= i32::MIN,
    ensures
        r == cat.spec_code() * 1000 + id,
{
    cat.code() * 1000 + id
}

/// Decoding what was encoded gives the category and id back, for every id
/// from 0 to 999 but the one pair that encodes to 1000 (a face item with id
/// 0), which decodes to nothing.
pub proof fn lemma_item_no_round_trip(cat: ItemCategory, id: i32)
    requires
        0 <= id < 1000,
        !(cat == ItemCategory::Face && id == 0),
    ensures
        spec_decode_item_no((cat.spec_code() * 1000 + id) as i32) == Some((cat, id)),
{
    let full = cat.spec_code() * 1000 + id;
    assert(full / 1000 == cat.spec_code());
    assert(full % 1000 == id);
}

/// The item type numbers of the categories, in the game's order: face 1,
/// cap 2, body 3, arms 4, foot 5, back 6, jewel 7, weapon 8, sub-weapon 9,
/// usable item 10, gem 11, natural 12, quest item 13, vehicle part 14; and
/// reading a number back gives its category.
pub proof fn lemma_category_codes(cat: ItemCategory)
    ensures
        ItemCategory::Face.spec_code() == 1 && ItemCategory::Cap.spec_code() == 2
            && ItemCategory::Body.spec_code() == 3 && ItemCategory::Arms.spec_code() == 4
            && ItemCategory::Foot.spec_code() == 5 && ItemCategory::Back.spec_code() == 6
            && ItemCategory::Jewel.spec_code() == 7 && ItemCategory::Weapon.spec_code() == 8
            && ItemCategory::SubWpn.spec_code() == 9 && ItemCategory::UseItem.spec_code() == 10
            && ItemCategory::Gem.spec_code() == 11 && ItemCategory::Natural.spec_code() == 12
            && ItemCategory::QuestItem.spec_code() == 13 && ItemCategory::Vehicle.spec_code() == 14,
        category_of_code(cat.spec_code() as int) == Some(cat),
{
}

/// Every value that decodes is the encoding of what it decodes to.
pub proof fn lemma_item_no_decodes_to_encoding(full: i32)
    requires
        spec_decode_item_no(full) is Some,
    ensures
        spec_decode_item_no(full) matches Some((c, id)) && c.spec_code() * 1000 + id == full && 0
            <= id < 1000,
{
    assert(full == (full / 1000) * 1000 + full % 1000);
}

/// An item of a category table.
#[derive(Debug, Clone)]
pub struct Item {
    pub category: ItemCategory,
    pub id: i32,
    pub name: String,
    pub icon_no: i32,
}

/// An NPC of the NPC table and the sell-table rows of its four shop tabs
/// (0 for none).
#[derive(Debug, Clone)]
pub struct Npc {
    pub id: i32,
    pub name: String,
    pub shop_tab_rows: [i32; 4],
}

impl Npc {
    /// The NPC has at least one shop tab.
    pub fn has_shop(&self) -> (r: bool)
        ensures
            r == exists|i: int| 0 <= i < 4 && #[trigger] self.shop_tab_rows@[i] > 0,
    {
        let mut i: usize = 0;
        while i < 4
            invariant
                i <= 4,
                forall|j: int| 0 <= j < i ==> #[trigger] self.shop_tab_rows@[j] <= 0,
            decreases 4 - i,
        {
            if self.shop_tab_rows[i] > 0 {
                return true;
            }
            i = i + 1;
        }
        false
    }
}

/// One shop tab: a row of the sell table with its name and item slots.
#[derive(Debug, Clone)]
pub struct ShopTab {
    /// The row of the sell table.
    pub row: usize,
    pub name: String,
    /// Encoded item numbers, one per slot.
    pub items: Vec<i32>,
    /// Edited since it was loaded or saved.
    pub dirty: bool,
}

/// Item slots of a shop tab.
pub const SHOP_TAB_SLOT_COUNT: usize = 48;


// ---------------------------------------------------------------- numbers as text

/// The character of the decimal digit `d`.
pub open spec fn digit_char(d: int) -> char {
    (48 + d) as char
}

/// The decimal digits of `n`, most significant first.
pub open spec fn digits_of(n: nat) -> Seq<char>
    decreases n,
{
    if n < 10 {
        seq![digit_char(n as int)]
    } else {
        digits_of(n / 10).push(digit_char((n % 10) as int))
    }
}

/// How `v` is written in decimal, with a leading `-` when negative.
pub open spec fn decimal_of(v: int) -> Seq<char> {
    if v < 0 {
        seq!['-'] + digits_of((-v) as nat)
    } else {
        digits_of(v as nat)
    }
}

fn digit_str(d: u64) -> (s: &'static str)
    requires
        d < 10,
    ensures
        s@ == seq![digit_char(d as int)],
{
    match d {
        0 => {
            proof {
                reveal_strlit("0");
            }
            "0"
        },
        1 => {
            proof {
                reveal_strlit("1");
            }
            "1"
        },
        2 => {
            proof {
                reveal_strlit("2");
            }
            "2"
        },
        3 => {
            proof {
                reveal_strlit("3");
            }
            "3"
        },
        4 => {
            proof {
                reveal_strlit("4");
            }
            "4"
        },
        5 => {
            proof {
                reveal_strlit("5");
            }
            "5"
        },
        6 => {
            proof {
                reveal_strlit("6");
            }
            "6"
        },
        7 => {
            proof {
                reveal_strlit("7");
            }
            "7"
        },
        8 => {
            proof {
                reveal_strlit("8");
            }
            "8"
        },
        _ => {
            proof {
                reveal_strlit("9");
            }
            "9"
        },
    }
}

fn push_digits(s: &mut String, n: u64)
    ensures
        final(s)@ == old(s)@ + digits_of(n as nat),
    decreases n,
{
    if n >= 10 {
        push_digits(s, n / 10);
    }
    let d = digit_str(n % 10);
    let ghost before = s@;
    s.append(d);
    assert(final(s)@ =~= old(s)@ + digits_of(n as nat));
}

/// `v` written in decimal, as `i32::to_string` writes it.
pub fn decimal_string(v: i32) -> (s: String)
    ensures
        s@ == decimal_of(v as int),
{
    if v < 0 {
        let mut s = String::from_str("-");
        proof {
            reveal_strlit("-");
        }
        let n = (0 - (v as i64)) as u64;
        push_digits(&mut s, n);
        s
    } else {
        let mut s = String::new();
        push_digits(&mut s, v as u64);
        assert(s@ =~= decimal_of(v as int));
        s
    }
}

// ---------------------------------------------------------------- the NPC table

/// The integer in cell `c` of a row, if it is there and parses.
pub open spec fn cell_int(row: Seq<String>, c: int) -> Option<i32> {
    if 0 <= c < row.len() {
        parse_i32_spec(row[c]@)
    } else {
        None
    }
}

/// The integer in cell `c`, or `d`.
pub open spec fn cell_int_or(row: Seq<String>, c: int, d: i32) -> i32 {
    match cell_int(row, c) {
        Some(v) => v,
        None => d,
    }
}

/// Reads the integer in cell `c`, if it is there and parses.
fn read_cell_int(row: &Vec<String>, c: usize) -> (r: Option<i32>)
    ensures
        r == cell_int(row@, c as int),
{
    if c < row.len() {
        parse_i32(row[c].as_str())
    } else {
        None
    }
}

pub(crate) fn read_cell_int_or(row: &Vec<String>, c: usize, d: i32) -> (r: i32)
    ensures
        r == cell_int_or(row@, c as int, d),
{
    match read_cell_int(row, c) {
        Some(v) => v,
        None => d,
    }
}

/// A row of the NPC table is a real NPC: its type cell (column 28, with the
/// row name in column 0) holds 999.
pub open spec fn is_npc_row(row: Seq<String>) -> bool {
    cell_int_or(row, 28, 0) == 999
}

/// An NPC as a value.
pub struct NpcModel {
    pub id: i32,
    pub name: Seq<char>,
    pub shop_tab_rows: Seq<i32>,
}

impl View for Npc {
    type V = NpcModel;

    open spec fn view(&self) -> NpcModel {
        NpcModel { id: self.id, name: self.name@, shop_tab_rows: self.shop_tab_rows@ }
    }
}

/// The NPC of row `i`: its id is the row name when that parses (else `i`),
/// its name the first cell when not empty (else `NPC ` and the id), its shop
/// tabs the cells of columns 22 to 25 (0 where they do not parse).
pub open spec fn npc_of_row(row: Seq<String>, i: int) -> NpcModel {
    let id = cell_int_or(row, 0, i as i32);
    NpcModel {
        id,
        name: if row.len() > 1 && row[1]@.len() > 0 {
            row[1]@
        } else {
            seq!['N', 'P', 'C', ' '] + decimal_of(id as int)
        },
        shop_tab_rows: seq![
            cell_int_or(row, 22, 0),
            cell_int_or(row, 23, 0),
            cell_int_or(row, 24, 0),
            cell_int_or(row, 25, 0),
        ],
    }
}

/// The NPCs among the first `k` rows, in row order.
pub open spec fn npcs_upto(rows: Seq<Vec<String>>, k: nat) -> Seq<NpcModel>
    decreases k,
{
    if k == 0 {
        Seq::<NpcModel>::empty()
    } else {
        let prev = npcs_upto(rows, (k - 1) as nat);
        if is_npc_row(rows[k - 1]@) {
            prev.push(npc_of_row(rows[k - 1]@, k - 1))
        } else {
            prev
        }
    }
}

pub open spec fn npc_views(v: Seq<Npc>) -> Seq<NpcModel> {
    Seq::new(v.len(), |i: int| v[i]@)
}

/// The NPCs of the NPC table's rows (row name in column 0), in row order.
pub fn collect_npcs(rows: &Vec<Vec<String>>) -> (r: Vec<Npc>)
    ensures
        npc_views(r@) == npcs_upto(rows@, rows@.len()),
{
    let mut out: Vec<Npc> = Vec::new();
    let mut i: usize = 0;
    while i < rows.len()
        invariant
            i <= rows@.len(),
            npc_views(out@) == npcs_upto(rows@, i as nat),
        decreases rows@.len() - i,
    {
        let row = &rows[i];
        let ghost before = out@;
        if read_cell_int_or(row, 28, 0) == 999 {
            let fallback = i as i32;
            assert(fallback == (i as int) as i32);
            let id = read_cell_int_or(row, 0, fallback);
            let name = if row.len() > 1 && !row[1].as_str().is_empty() {
                row[1].clone()
            } else {
                let mut s = String::from_str("NPC ");
                proof {
                    reveal_strlit("NPC ");
                }
                let d = decimal_string(id);
                s.append(d.as_str());
                s
            };
            let shop_tab_rows = [
                read_cell_int_or(row, 22, 0),
                read_cell_int_or(row, 23, 0),
                read_cell_int_or(row, 24, 0),
                read_cell_int_or(row, 25, 0),
            ];
            let npc = Npc { id, name, shop_tab_rows };
            proof {
                assert(npc@.shop_tab_rows =~= npc_of_row(row@, i as int).shop_tab_rows);
                let m = npc_of_row(row@, i as int);
                assert(npc@.id == m.id);
                assert(npc@.name == m.name);
                assert(npc@ == m);
            }
            out.push(npc);
            assert(npc_views(out@) =~= npc_views(before).push(npc@));
        }
        proof {
            assert(((i + 1) as nat - 1) as nat == i as nat);
        }
        i = i + 1;
    }
    out
}

// ---------------------------------------------------------------- shop tab references

/// How many of the four tab slots hold `r`.
pub open spec fn slot_refs(rows: Seq<i32>, r: int, j: nat) -> nat
    decreases j,
{
    if j == 0 {
        0
    } else {
        slot_refs(rows, r, (j - 1) as nat) + if rows[j - 1] == r {
            1nat
        } else {
            0nat
        }
    }
}

/// How many tab slots of the first `k` NPCs hold `r`.
pub open spec fn tab_refs(npcs: Seq<NpcModel>, r: int, k: nat) -> nat
    decreases k,
{
    if k == 0 {
        0
    } else {
        tab_refs(npcs, r, (k - 1) as nat) + slot_refs(npcs[k - 1].shop_tab_rows, r, 4)
    }
}

proof fn lemma_slot_refs_bound(rows: Seq<i32>, r: int, j: nat)
    ensures
        slot_refs(rows, r, j) <= j,
    decreases j,
{
    if j > 0 {
        lemma_slot_refs_bound(rows, r, (j - 1) as nat);
    }
}

proof fn lemma_tab_refs_bound(npcs: Seq<NpcModel>, r: int, k: nat)
    ensures
        tab_refs(npcs, r, k) <= 4 * k,
    decreases k,
{
    if k > 0 {
        lemma_tab_refs_bound(npcs, r, (k - 1) as nat);
        lemma_slot_refs_bound(npcs[k - 1].shop_tab_rows, r, 4);
    }
}

/// For each sell-table row that some NPC references, how many tab slots
/// reference it; rows that nothing references are absent.
pub fn count_tab_refs(npcs: &Vec<Npc>) -> (counts: HashMap<usize, usize>)
    requires
        npcs@.len() * 4 <= usize::MAX,
    ensures
        forall|r: usize|
            #![trigger counts@.contains_key(r)]
            (counts@.contains_key(r) <==> r > 0 && r <= i32::MAX && tab_refs(npc_views(npcs@), r as int, npcs@.len()) > 0)
                && (counts@.contains_key(r) ==> counts@[r] == tab_refs(
                npc_views(npcs@),
                r as int,
                npcs@.len(),
            )),
{
    let ghost nv = npc_views(npcs@);
    let mut counts: HashMap<usize, usize> = HashMap::new();
    let mut k: usize = 0;
    while k < npcs.len()
        invariant
            k <= npcs@.len(),
            npcs@.len() * 4 <= usize::MAX,
            nv == npc_views(npcs@),
            forall|r: usize|
                #![trigger counts@.contains_key(r)]
                (counts@.contains_key(r) <==> r > 0 && r <= i32::MAX && tab_refs(nv, r as int, k as nat) > 0)
                    && (counts@.contains_key(r) ==> counts@[r] == tab_refs(nv, r as int, k as nat)),
        decreases npcs@.len() - k,
    {
        let rows = npcs[k].shop_tab_rows;
        assert(rows@ == nv[k as int].shop_tab_rows);
        let mut j: usize = 0;
        while j < 4
            invariant
                j <= 4,
                k < npcs@.len(),
                npcs@.len() * 4 <= usize::MAX,
                nv == npc_views(npcs@),
                rows@ == nv[k as int].shop_tab_rows,
                forall|r: usize|
                    #![trigger counts@.contains_key(r)]
                    (counts@.contains_key(r) <==> r > 0 && r <= i32::MAX && tab_refs(nv, r as int, k as nat)
                        + slot_refs(rows@, r as int, j as nat) > 0) && (counts@.contains_key(r)
                        ==> counts@[r] == tab_refs(nv, r as int, k as nat) + slot_refs(
                        rows@,
                        r as int,
                        j as nat,
                    )),
            decreases 4 - j,
        {
            let row = rows[j];
            if row > 0 {
                let key = row as usize;
                proof {
                    lemma_tab_refs_bound(nv, key as int, k as nat);
                    lemma_slot_refs_bound(rows@, key as int, j as nat);
                }
                let cur: usize = match counts.get(&key) {
                    Some(v) => *v,
                    None => 0,
                };
                assert(cur == tab_refs(nv, key as int, k as nat) + slot_refs(rows@, key as int, j as nat));
                assert(cur + 1 <= usize::MAX) by (nonlinear_arith)
                    requires
                        cur <= 4 * k + j,
                        j < 4,
                        k < npcs@.len(),
                        npcs@.len() * 4 <= usize::MAX,
                ;
                counts.insert(key, cur + 1);
            }
            proof {
                assert forall|r: usize| #![trigger counts@.contains_key(r)]
                    slot_refs(rows@, r as int, (j + 1) as nat) == slot_refs(rows@, r as int, j as nat)
                        + if rows@[j as int] == r {
                        1nat
                    } else {
                        0nat
                    } by {
                    assert(((j + 1) as nat - 1) as nat == j as nat);
                }
            }
            j = j + 1;
        }
        proof {
            assert forall|r: usize| #![trigger counts@.contains_key(r)]
                tab_refs(nv, r as int, (k + 1) as nat) == tab_refs(nv, r as int, k as nat) + slot_refs(
                    rows@,
                    r as int,
                    4,
                ) by {
                assert(((k + 1) as nat - 1) as nat == k as nat);
            }
        }
        k = k + 1;
    }
    assert(nv.len() == npcs@.len());
    counts
}


// ---------------------------------------------------------------- item tables

/// An item as a value.
pub struct ItemModel {
    pub category: ItemCategory,
    pub id: i32,
    pub name: Seq<char>,
    pub icon_no: i32,
}

impl View for Item {
    type V = ItemModel;

    open spec fn view(&self) -> ItemModel {
        ItemModel { category: self.category, id: self.id, name: self.name@, icon_no: self.icon_no }
    }
}

pub open spec fn item_views(v: Seq<Item>) -> Seq<ItemModel> {
    Seq::new(v.len(), |i: int| v[i]@)
}

/// The item that row `i` of a category table describes: id from the row name
/// (else `i`), name from the first cell (else empty), icon from column 10
/// (else 0).
pub open spec fn item_of_row(cat: ItemCategory, row: Seq<String>, i: int) -> ItemModel {
    ItemModel {
        category: cat,
        id: cell_int_or(row, 0, i as i32),
        name: if row.len() > 1 {
            row[1]@
        } else {
            Seq::<char>::empty()
        },
        icon_no: cell_int_or(row, 10, 0),
    }
}

/// The items of the first `k` rows of a category table; rows with neither a
/// name nor an icon are left out.
pub open spec fn items_upto(cat: ItemCategory, rows: Seq<Vec<String>>, k: nat) -> Seq<ItemModel>
    decreases k,
{
    if k == 0 {
        Seq::<ItemModel>::empty()
    } else {
        let prev = items_upto(cat, rows, (k - 1) as nat);
        let it = item_of_row(cat, rows[k - 1]@, k - 1);
        if it.name.len() == 0 && it.icon_no == 0 {
            prev
        } else {
            prev.push(it)
        }
    }
}

/// The items of one category table (row name in column 0), in row order.
pub fn load_item_table(cat: ItemCategory, rows: &Vec<Vec<String>>) -> (r: Vec<Item>)
    ensures
        item_views(r@) == items_upto(cat, rows@, rows@.len()),
{
    let mut out: Vec<Item> = Vec::new();
    let mut i: usize = 0;
    while i < rows.len()
        invariant
            i <= rows@.len(),
            item_views(out@) == items_upto(cat, rows@, i as nat),
        decreases rows@.len() - i,
    {
        let row = &rows[i];
        let fallback = i as i32;
        assert(fallback == (i as int) as i32);
        let id = read_cell_int_or(row, 0, fallback);
        let name = if row.len() > 1 {
            row[1].clone()
        } else {
            String::new()
        };
        let icon_no = read_cell_int_or(row, 10, 0);
        let ghost before = out@;
        let it = Item { category: cat, id, name, icon_no };
        assert(it@ == item_of_row(cat, row@, i as int));
        if !(it.name.as_str().is_empty() && icon_no == 0) {
            out.push(it);
            assert(item_views(out@) =~= item_views(before).push(it@));
        }
        proof {
            assert(((i + 1) as nat - 1) as nat == i as nat);
        }
        i = i + 1;
    }
    out
}

/// The items of each category whose table could be read.
pub struct ItemDb {
    /// Each category at most once, with its items in table order.
    pub by_category: Vec<(ItemCategory, Vec<Item>)>,
}

impl ItemDb {
    /// Each category appears at most once.
    pub open spec fn wf(&self) -> bool {
        forall|i: int, j: int|
            0 <= i < j < self.by_category@.len() ==> #[trigger] self.by_category@[i].0
                != #[trigger] self.by_category@[j].0
    }

    /// The items of `cat`, if its table was read.
    pub open spec fn items_of(&self, cat: ItemCategory) -> Option<Seq<ItemModel>> {
        if exists|i: int| 0 <= i < self.by_category@.len() && #[trigger] self.by_category@[i].0 == cat {
            let i = choose|i: int| 0 <= i < self.by_category@.len() && #[trigger] self.by_category@[i].0 == cat;
            Some(item_views(self.by_category@[i].1@))
        } else {
            None
        }
    }

    /// The first item of `cat` with id `id`.
    pub fn lookup(&self, cat: ItemCategory, id: i32) -> (r: Option<&Item>)
        requires
            self.wf(),
        ensures
            match self.items_of(cat) {
                None => r is None,
                Some(items) => match r {
                    None => forall|j: int| 0 <= j < items.len() ==> #[trigger] items[j].id != id,
                    Some(it) => exists|j: int|
                        0 <= j < items.len() && items[j] == it@ && it.id == id && forall|k: int|
                            0 <= k < j ==> #[trigger] items[k].id != id,
                },
            },
    {
        let mut i: usize = 0;
        while i < self.by_category.len()
            invariant
                i <= self.by_category@.len(),
                self.wf(),
                forall|k: int| 0 <= k < i ==> #[trigger] self.by_category@[k].0 != cat,
            decreases self.by_category@.len() - i,
        {
            if self.by_category[i].0 == cat {
                proof {
                    let w = choose|w: int|
                        0 <= w < self.by_category@.len() && #[trigger] self.by_category@[w].0 == cat;
                    if w != i {
                        if w < i {
                            assert(self.by_category@[w].0 != self.by_category@[i as int].0);
                        } else {
                            assert(self.by_category@[i as int].0 != self.by_category@[w].0);
                        }
                    }
                }
                let items = &self.by_category[i].1;
                assert(self.items_of(cat) == Some(item_views(items@)));
                let mut j: usize = 0;
                while j < items.len()
                    invariant
                        j <= items@.len(),
                        self.items_of(cat) == Some(item_views(items@)),
                        forall|k: int| 0 <= k < j ==> #[trigger] items@[k].id != id,
                    decreases items@.len() - j,
                {
                    if items[j].id == id {
                        assert(item_views(items@)[j as int] == items@[j as int]@);
                        assert forall|k: int| 0 <= k < j implies #[trigger] item_views(items@)[k].id != id by {
                            assert(item_views(items@)[k] == items@[k]@);
                        }
                        let r = &items[j];
                        assert(item_views(items@)[j as int] == r@ && r.id == id);
                        return Some(r);
                    }
                    j = j + 1;
                }
                assert forall|k: int| 0 <= k < item_views(items@).len() implies #[trigger] item_views(items@)[k].id != id by {
                    assert(item_views(items@)[k] == items@[k]@);
                }
                return None;
            }
            i = i + 1;
        }
        None
    }

    /// Every item, category after category.
    pub fn all(&self) -> (r: Vec<&Item>)
        ensures
            ref_views(r@) == all_item_views(self.by_category@, self.by_category@.len()),
    {
        let mut out: Vec<&Item> = Vec::new();
        let mut i: usize = 0;
        while i < self.by_category.len()
            invariant
                i <= self.by_category@.len(),
                ref_views(out@) == all_item_views(self.by_category@, i as nat),
            decreases self.by_category@.len() - i,
        {
            let items = &self.by_category[i].1;
            let ghost start = ref_views(out@);
            let mut j: usize = 0;
            while j < items.len()
                invariant
                    j <= items@.len(),
                    ref_views(out@) == start + item_views(items@).take(j as int),
                decreases items@.len() - j,
            {
                let ghost before = out@;
                out.push(&items[j]);
                proof {
                    assert(ref_views(out@) =~= ref_views(before).push(items@[j as int]@));
                    assert(item_views(items@).take(j + 1) =~= item_views(items@).take(j as int).push(
                        items@[j as int]@,
                    ));
                }
                j = j + 1;
            }
            proof {
                assert(item_views(items@).take(items@.len() as int) =~= item_views(items@));
                assert(((i + 1) as nat - 1) as nat == i as nat);
            }
            i = i + 1;
        }
        out
    }
}

/// The items behind references.
pub open spec fn ref_views(v: Seq<&Item>) -> Seq<ItemModel> {
    Seq::new(v.len(), |i: int| v[i]@)
}

/// The items of the first `k` categories, one category after another.
pub open spec fn all_item_views(v: Seq<(ItemCategory, Vec<Item>)>, k: nat) -> Seq<ItemModel>
    decreases k,
{
    if k == 0 {
        Seq::<ItemModel>::empty()
    } else {
        all_item_views(v, (k - 1) as nat) + item_views(v[k - 1].1@)
    }
}

} // verus!
