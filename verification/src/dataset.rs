//! The shop editor's workspace: the NPC and sell tables, the NPCs' shop tabs
//! loaded for editing, how many NPCs share each tab, and how an edit of a
//! shared tab first gives the NPC a copy of its own.
use vstd::prelude::*;
use std::collections::HashMap;

use crate::shop::{
    cell_int_or, collect_npcs, count_tab_refs, decimal_of, decimal_string, npc_views, npcs_upto,
    read_cell_int_or, tab_refs, ItemDb, Npc, NpcModel, ShopTab, SHOP_TAB_SLOT_COUNT,
};
use crate::stb::string_views;
use crate::zones::{cell_text, Zone};

verus! {

broadcast use vstd::std_specs::hash::group_hash_axioms;

/// A shop tab as values.
pub struct TabModel {
    pub row: usize,
    pub name: Seq<char>,
    pub items: Seq<i32>,
    pub dirty: bool,
}

impl View for ShopTab {
    type V = TabModel;

    open spec fn view(&self) -> TabModel {
        TabModel { row: self.row, name: self.name@, items: self.items@, dirty: self.dirty }
    }
}

pub open spec fn tab_views(v: Seq<ShopTab>) -> Seq<TabModel> {
    Seq::new(v.len(), |i: int| v[i]@)
}

/// The tab that row `row` of the sell table holds: its name in column 1 and
/// its item slots in columns 3 on (0 where a cell does not parse).
pub open spec fn loaded_tab(rows: Seq<Vec<String>>, row: int) -> TabModel {
    TabModel {
        row: row as usize,
        name: cell_text(rows[row]@, 1),
        items: Seq::new(SHOP_TAB_SLOT_COUNT as nat, |s: int| cell_int_or(rows[row]@, 3 + s, 0)),
        dirty: false,
    }
}

/// Where the tab of `row` is among the loaded tabs.
pub open spec fn cache_index(tabs: Seq<TabModel>, row: usize) -> Option<int> {
    if exists|i: int| 0 <= i < tabs.len() && #[trigger] tabs[i].row == row {
        Some(choose|i: int| 0 <= i < tabs.len() && #[trigger] tabs[i].row == row)
    } else {
        None
    }
}

/// The workspace: the tables as rows of cells (row 0 of each is its header
/// row), the NPCs, the loaded tabs, the NPC tab-slot references per sell row,
/// the items and zones, and whether an NPC's tabs were changed.
pub struct DataSet {
    pub npc_rows: Vec<Vec<String>>,
    pub sell_rows: Vec<Vec<String>>,
    pub npcs: Vec<Npc>,
    pub shop_tabs: Vec<ShopTab>,
    pub tab_ref_counts: HashMap<usize, usize>,
    pub item_db: ItemDb,
    pub zones: Vec<Zone>,
    pub any_npc_dirty: bool,
}

/// Why an edit of an NPC's tab cannot begin.
#[derive(Debug, Clone, Copy, PartialEq, Eq, Structural)]
pub enum TabEditError {
    /// No NPC has that index.
    InvalidNpc,
    /// The NPC has no tab in that slot.
    NoShopTab(usize),
}

impl DataSet {
    /// Loaded tabs are of different rows, each a row of the sell table past
    /// its header, each with a full set of slots.
    pub open spec fn wf(&self) -> bool {
        &&& forall|i: int, j: int|
            0 <= i < j < self.shop_tabs@.len() ==> #[trigger] self.shop_tabs@[i].row
                != #[trigger] self.shop_tabs@[j].row
        &&& forall|i: int|
            0 <= i < self.shop_tabs@.len() ==> 0 < #[trigger] self.shop_tabs@[i].row
                < self.sell_rows@.len() && self.shop_tabs@[i].items@.len() == SHOP_TAB_SLOT_COUNT
    }

    /// A workspace for the given tables: the NPC table's NPCs and the tab
    /// references they make, nothing loaded and nothing changed.
    pub fn from_tables(
        npc_rows: Vec<Vec<String>>,
        sell_rows: Vec<Vec<String>>,
        item_db: ItemDb,
        zones: Vec<Zone>,
    ) -> (r: DataSet)
        requires
            npc_rows@.len() * 4 <= usize::MAX,
        ensures
            r.wf(),
            r.npc_rows@ == npc_rows@,
            r.sell_rows@ == sell_rows@,
            npc_views(r.npcs@) == npcs_upto(npc_rows@, npc_rows@.len()),
            forall|row: usize|
                #![trigger r.tab_ref_counts@.contains_key(row)]
                (r.tab_ref_counts@.contains_key(row) <==> row > 0 && row <= i32::MAX && tab_refs(
                    npc_views(r.npcs@),
                    row as int,
                    r.npcs@.len(),
                ) > 0) && (r.tab_ref_counts@.contains_key(row) ==> r.tab_ref_counts@[row]
                    == tab_refs(npc_views(r.npcs@), row as int, r.npcs@.len())),
            r.shop_tabs@.len() == 0,
            !r.any_npc_dirty,
    {
        let npcs = collect_npcs(&npc_rows);
        proof {
            lemma_npcs_upto_len(npc_rows@, npc_rows@.len());
            assert(npcs@.len() == npc_views(npcs@).len());
        }
        let tab_ref_counts = count_tab_refs(&npcs);
        DataSet {
            npc_rows,
            sell_rows,
            npcs,
            shop_tabs: Vec::new(),
            tab_ref_counts,
            item_db,
            zones,
            any_npc_dirty: false,
        }
    }

    /// Where the tab of `row` is among the loaded tabs, if it is loaded.
    pub fn find_tab(&self, row: usize) -> (r: Option<usize>)
        ensures
            match r {
                Some(i) => i < self.shop_tabs@.len() && self.shop_tabs@[i as int].row == row,
                None => forall|i: int| 0 <= i < self.shop_tabs@.len() ==> #[trigger] self.shop_tabs@[i].row != row,
            },
    {
        let mut i: usize = 0;
        while i < self.shop_tabs.len()
            invariant
                i <= self.shop_tabs@.len(),
                forall|k: int| 0 <= k < i ==> #[trigger] self.shop_tabs@[k].row != row,
            decreases self.shop_tabs@.len() - i,
        {
            if self.shop_tabs[i].row == row {
                return Some(i);
            }
            i = i + 1;
        }
        None
    }

    /// Loads the tab of sell row `row` (unless it is loaded) and gives its
    /// place among the loaded tabs; nothing for the header row or a row past
    /// the table.
    pub fn get_or_load_tab(&mut self, row: usize) -> (r: Option<usize>)
        requires
            old(self).wf(),
        ensures
            final(self).wf(),
            final(self).npc_rows@ == old(self).npc_rows@,
            final(self).sell_rows@ == old(self).sell_rows@,
            final(self).npcs@ == old(self).npcs@,
            final(self).tab_ref_counts@ == old(self).tab_ref_counts@,
            final(self).any_npc_dirty == old(self).any_npc_dirty,
            (row == 0 || row >= old(self).sell_rows@.len()) ==> r is None
                && final(self).shop_tabs@ == old(self).shop_tabs@,
            !(row == 0 || row >= old(self).sell_rows@.len()) ==> (r matches Some(i) && i
                < final(self).shop_tabs@.len() && final(self).shop_tabs@[i as int].row == row),
            !(row == 0 || row >= old(self).sell_rows@.len()) && (exists|i: int|
                0 <= i < old(self).shop_tabs@.len() && #[trigger] old(self).shop_tabs@[i].row
                    == row) ==> final(self).shop_tabs@ == old(self).shop_tabs@,
            !(row == 0 || row >= old(self).sell_rows@.len()) && !(exists|i: int|
                0 <= i < old(self).shop_tabs@.len() && #[trigger] old(self).shop_tabs@[i].row
                    == row) ==> tab_views(final(self).shop_tabs@) == tab_views(
                old(self).shop_tabs@,
            ).push(loaded_tab(old(self).sell_rows@, row as int)),
    {
        if row == 0 || row >= self.sell_rows.len() {
            return None;
        }
        match self.find_tab(row) {
            Some(i) => Some(i),
            None => {
                let tab = load_tab(&self.sell_rows, row);
                let ghost before = self.shop_tabs@;
                self.shop_tabs.push(tab);
                assert(tab_views(self.shop_tabs@) =~= tab_views(before).push(tab@));
                Some(self.shop_tabs.len() - 1)
            },
        }
    }

    /// How many NPC tab slots reference sell row `row`.
    pub fn ref_count(&self, row: usize) -> (r: usize)
        ensures
            self.tab_ref_counts@.contains_key(row) ==> r == self.tab_ref_counts@[row],
            !self.tab_ref_counts@.contains_key(row) ==> r == 0,
    {
        match self.tab_ref_counts.get(&row) {
            Some(c) => *c,
            None => 0,
        }
    }
}

/// The cells of each row.
pub open spec fn rows_view(v: Seq<Vec<String>>) -> Seq<Seq<String>> {
    Seq::new(v.len(), |i: int| v[i]@)
}

/// How many tab slots reference `row`, as the edit counts them: one when
/// the row is not counted.
pub open spec fn refs_for_edit(counts: Map<usize, usize>, row: usize) -> usize {
    if counts.contains_key(row) {
        counts[row]
    } else {
        1
    }
}

/// The sell row an NPC's tab slot names.
pub open spec fn slot_row(d: DataSet, npc_idx: int, tab_slot: int) -> i32 {
    d.npcs@[npc_idx].shop_tab_rows@[tab_slot]
}

/// Beginning an edit copies the tab: the NPC names a tab that other slots
/// share.
pub open spec fn edit_copies(d: DataSet, npc_idx: int, tab_slot: int) -> bool {
    &&& 0 <= npc_idx < d.npcs@.len()
    &&& slot_row(d, npc_idx, tab_slot) > 0
    &&& refs_for_edit(d.tab_ref_counts@, slot_row(d, npc_idx, tab_slot) as usize) > 1
}

impl DataSet {
    /// Begins an edit of the tab in slot `tab_slot` of NPC `npc_idx` and gives
    /// the sell row to edit. A tab shared with other slots is copied first:
    /// the copy is appended to the sell table, the NPC names it instead, the
    /// old row counts one reference less and the copy one, and a loaded tab
    /// of the old row moves to the copy (marked changed), or else the copy is
    /// loaded.
    pub fn begin_tab_edit(&mut self, npc_idx: usize, tab_slot: usize) -> (r: Result<usize, TabEditError>)
        requires
            old(self).wf(),
            tab_slot < 4,
            edit_copies(*old(self), npc_idx as int, tab_slot as int) ==> slot_row(
                *old(self),
                npc_idx as int,
                tab_slot as int,
            ) < old(self).sell_rows@.len(),
        ensures
            final(self).wf(),
            npc_idx >= old(self).npcs@.len() ==> r == Err::<usize, TabEditError>(TabEditError::InvalidNpc)
                && *final(self) == *old(self),
            npc_idx < old(self).npcs@.len() && slot_row(*old(self), npc_idx as int, tab_slot as int) <= 0
                ==> r == Err::<usize, TabEditError>(TabEditError::NoShopTab(tab_slot)) && *final(self)
                == *old(self),
            npc_idx < old(self).npcs@.len() && slot_row(*old(self), npc_idx as int, tab_slot as int) > 0
                && !edit_copies(*old(self), npc_idx as int, tab_slot as int) ==> r == Ok::<
                usize,
                TabEditError,
            >(slot_row(*old(self), npc_idx as int, tab_slot as int) as usize) && *final(self) == *old(self),
            edit_copies(*old(self), npc_idx as int, tab_slot as int) ==> ({
                let row = slot_row(*old(self), npc_idx as int, tab_slot as int) as usize;
                let new_row = old(self).sell_rows@.len() as usize;
                let npc = npc_views(old(self).npcs@)[npc_idx as int];
                &&& r == Ok::<usize, TabEditError>(new_row)
                &&& rows_view(final(self).sell_rows@) == rows_view(old(self).sell_rows@).push(
                    old(self).sell_rows@[row as int]@,
                )
                &&& final(self).npc_rows@ == old(self).npc_rows@
                &&& npc_views(final(self).npcs@) == npc_views(old(self).npcs@).update(
                    npc_idx as int,
                    NpcModel { shop_tab_rows: npc.shop_tab_rows.update(tab_slot as int, new_row as i32), ..npc },
                )
                &&& final(self).any_npc_dirty
                &&& final(self).tab_ref_counts@ == old(self).tab_ref_counts@.insert(
                    row,
                    (refs_for_edit(old(self).tab_ref_counts@, row) - 1) as usize,
                ).insert(new_row, 1)
                &&& (forall|i: int|
                    0 <= i < old(self).shop_tabs@.len() ==> #[trigger] old(self).shop_tabs@[i].row
                        != row) ==> tab_views(final(self).shop_tabs@) == tab_views(
                    old(self).shop_tabs@,
                ).push(loaded_tab(final(self).sell_rows@, new_row as int))
                &&& forall|i: int|
                    0 <= i < old(self).shop_tabs@.len() && #[trigger] old(self).shop_tabs@[i].row
                        == row ==> tab_views(final(self).shop_tabs@) == tab_views(
                        old(self).shop_tabs@,
                    ).remove(i).push(
                        TabModel { row: new_row, dirty: true, ..old(self).shop_tabs@[i]@ },
                    )
            }),
    {
        if npc_idx >= self.npcs.len() {
            return Err(TabEditError::InvalidNpc);
        }
        let row_i = self.npcs[npc_idx].shop_tab_rows[tab_slot];
        if row_i <= 0 {
            return Err(TabEditError::NoShopTab(tab_slot));
        }
        let row = row_i as usize;
        let refs: usize = match self.tab_ref_counts.get(&row) {
            Some(c) => *c,
            None => 1,
        };
        if refs <= 1 {
            return Ok(row);
        }
        let ghost old_self = *self;
        let source = self.sell_rows[row].clone();
        proof {
            assert(source@ =~= old_self.sell_rows@[row as int]@) by {
                assert forall|k: int| 0 <= k < source@.len() implies source@[k] == old_self.sell_rows@[row as int]@[k] by {
                    assert(cloned::<String>(old_self.sell_rows@[row as int]@[k], source@[k]));
                }
            }
        }
        self.sell_rows.push(source);
        let new_row = self.sell_rows.len() - 1;
        let old_npc = &self.npcs[npc_idx];
        let mut rows = old_npc.shop_tab_rows;
        rows[tab_slot] = new_row as i32;
        let npc = Npc { id: old_npc.id, name: old_npc.name.clone(), shop_tab_rows: rows };
        self.npcs.set(npc_idx, npc);
        proof {
            assert(npc_views(self.npcs@) =~= npc_views(old_self.npcs@).update(
                npc_idx as int,
                NpcModel {
                    shop_tab_rows: npc_views(old_self.npcs@)[npc_idx as int].shop_tab_rows.update(
                        tab_slot as int,
                        new_row as i32,
                    ),
                    ..npc_views(old_self.npcs@)[npc_idx as int]
                },
            ));
        }
        self.any_npc_dirty = true;
        self.tab_ref_counts.insert(row, refs - 1);
        self.tab_ref_counts.insert(new_row, 1);
        match self.find_tab(row) {
            Some(i) => {
                let ghost before = self.shop_tabs@;
                let mut tab = self.shop_tabs.remove(i);
                tab.row = new_row;
                tab.dirty = true;
                self.shop_tabs.push(tab);
                proof {
                    assert(tab_views(self.shop_tabs@) =~= tab_views(before).remove(i as int).push(
                        TabModel { row: new_row, dirty: true, ..before[i as int]@ },
                    ));
                    assert forall|k: int|
                        0 <= k < before.len() && #[trigger] before[k].row == row implies k == i by {
                        if k < i {
                            assert(before[k].row != before[i as int].row);
                        } else if k > i {
                            assert(before[i as int].row != before[k].row);
                        }
                    }
                    assert forall|a: int, b: int|
                        0 <= a < b < self.shop_tabs@.len() implies #[trigger] self.shop_tabs@[a].row
                        != #[trigger] self.shop_tabs@[b].row by {
                        if b == self.shop_tabs@.len() - 1 {
                            let a0 = if a < i { a } else { a + 1 };
                            assert(self.shop_tabs@[a] == before[a0]);
                        } else {
                            let a0 = if a < i { a } else { a + 1 };
                            let b0 = if b < i { b } else { b + 1 };
                            assert(self.shop_tabs@[a] == before[a0]);
                            assert(self.shop_tabs@[b] == before[b0]);
                        }
                    }
                    assert forall|k: int| 0 <= k < self.shop_tabs@.len() implies 0 < #[trigger] self.shop_tabs@[k].row
                        < self.sell_rows@.len() && self.shop_tabs@[k].items@.len() == SHOP_TAB_SLOT_COUNT by {
                        if k < self.shop_tabs@.len() - 1 {
                            let k0 = if k < i { k } else { k + 1 };
                            assert(self.shop_tabs@[k] == before[k0]);
                        }
                    }
                }
            },
            None => {
                proof {
                    assert forall|k: int| 0 <= k < self.shop_tabs@.len() implies #[trigger] self.shop_tabs@[k].row
                        != new_row by {
                        assert(self.shop_tabs@[k].row < old_self.sell_rows@.len());
                    }
                }
                let _ = self.get_or_load_tab(new_row);
            },
        }
        assert(rows_view(self.sell_rows@) =~= rows_view(old_self.sell_rows@).push(
            old_self.sell_rows@[row as int]@,
        ));
        Ok(new_row)
    }
}

// ---------------------------------------------------------------- writing edits back

/// A table's cells as text.
pub open spec fn table_text(v: Seq<Vec<String>>) -> Seq<Seq<Seq<char>>> {
    Seq::new(v.len(), |i: int| string_views(v[i]@))
}

/// The sell table with a tab's slots written into its row: rows are added up
/// to the tab's row, the row is filled with `0` cells up to the last slot,
/// and each slot's item number goes into column 3 on.
pub open spec fn with_tab(rows: Seq<Seq<Seq<char>>>, t: TabModel) -> Seq<Seq<Seq<char>>> {
    let padded = if rows.len() <= t.row {
        rows + Seq::new((t.row + 1 - rows.len()) as nat, |i: int| Seq::<Seq<char>>::empty())
    } else {
        rows
    };
    let r = padded[t.row as int];
    let r2 = if r.len() < 3 + SHOP_TAB_SLOT_COUNT {
        r + Seq::new((3 + SHOP_TAB_SLOT_COUNT - r.len()) as nat, |i: int| seq!['0'])
    } else {
        r
    };
    padded.update(
        t.row as int,
        Seq::new(
            r2.len(),
            |c: int|
                if 3 <= c < 3 + t.items.len() {
                    decimal_of(t.items[c - 3] as int)
                } else {
                    r2[c]
                },
        ),
    )
}

/// The sell table with every changed tab written in, in order.
pub open spec fn with_tabs(rows: Seq<Seq<Seq<char>>>, tabs: Seq<TabModel>) -> Seq<Seq<Seq<char>>>
    decreases tabs.len(),
{
    if tabs.len() == 0 {
        rows
    } else {
        let acc = with_tabs(rows, tabs.drop_last());
        if tabs.last().dirty {
            with_tab(acc, tabs.last())
        } else {
            acc
        }
    }
}

/// The NPC table with an NPC's tab rows written into columns 22 to 25 of its
/// row (its id), where those cells exist.
pub open spec fn with_npc(rows: Seq<Seq<Seq<char>>>, npc: NpcModel) -> Seq<Seq<Seq<char>>> {
    if 0 <= npc.id < rows.len() {
        let r = rows[npc.id as int];
        rows.update(
            npc.id as int,
            Seq::new(
                r.len(),
                |c: int|
                    if 22 <= c < 26 {
                        decimal_of(npc.shop_tab_rows[c - 22] as int)
                    } else {
                        r[c]
                    },
            ),
        )
    } else {
        rows
    }
}

pub open spec fn with_npcs(rows: Seq<Seq<Seq<char>>>, npcs: Seq<NpcModel>) -> Seq<Seq<Seq<char>>>
    decreases npcs.len(),
{
    if npcs.len() == 0 {
        rows
    } else {
        with_npc(with_npcs(rows, npcs.drop_last()), npcs.last())
    }
}

fn copy_row(r: &Vec<String>) -> (c: Vec<String>)
    ensures
        c@ == r@,
{
    let c = r.clone();
    assert(c@ =~= r@) by {
        assert forall|k: int| 0 <= k < c@.len() implies c@[k] == r@[k] by {
            assert(cloned::<String>(r@[k], c@[k]));
        }
    }
    c
}

/// Writes a tab's slots into the sell table.
fn write_tab(rows: &mut Vec<Vec<String>>, t: &ShopTab)
    requires
        t.items@.len() <= SHOP_TAB_SLOT_COUNT,
    ensures
        table_text(final(rows)@) == with_tab(table_text(old(rows)@), t@),
{
    let ghost old_text = table_text(rows@);
    while rows.len() <= t.row
        invariant
            table_text(rows@) == old_text + Seq::new(
                (rows@.len() - old_text.len()) as nat,
                |i: int| Seq::<Seq<char>>::empty(),
            ),
            rows@.len() >= old_text.len(),
            old_text.len() > t.row ==> rows@.len() == old_text.len(),
            old_text.len() <= t.row ==> rows@.len() <= t.row + 1,
        decreases t.row + 1 - rows@.len(),
    {
        let ghost before = rows@;
        let e: Vec<String> = Vec::new();
        assert(string_views(e@) =~= Seq::<Seq<char>>::empty());
        rows.push(e);
        assert(table_text(rows@) =~= old_text + Seq::new(
            (rows@.len() - old_text.len()) as nat,
            |i: int| Seq::<Seq<char>>::empty(),
        )) by {
            assert(table_text(rows@) =~= table_text(before).push(Seq::<Seq<char>>::empty()));
        }
    }
    let ghost padded = table_text(rows@);
    assert(padded =~= (if old_text.len() <= t.row {
        old_text + Seq::new((t.row + 1 - old_text.len()) as nat, |i: int| Seq::<Seq<char>>::empty())
    } else {
        old_text
    }));
    let mut r = copy_row(&rows[t.row]);
    let ghost r0 = string_views(r@);
    while r.len() < 3 + SHOP_TAB_SLOT_COUNT
        invariant
            string_views(r@) == r0 + Seq::new((r@.len() - r0.len()) as nat, |i: int| seq!['0']),
            r@.len() >= r0.len(),
            r0.len() >= 3 + SHOP_TAB_SLOT_COUNT ==> r@.len() == r0.len(),
            r0.len() < 3 + SHOP_TAB_SLOT_COUNT ==> r@.len() <= 3 + SHOP_TAB_SLOT_COUNT,
        decreases 3 + SHOP_TAB_SLOT_COUNT - r@.len(),
    {
        let ghost before = r@;
        let zero = "0";
        proof {
            reveal_strlit("0");
            assert(zero@ =~= seq!['0']);
        }
        let z = String::from_str(zero);
        r.push(z);
        assert(z@ == seq!['0']);
        assert(string_views(r@) =~= r0 + Seq::new((r@.len() - r0.len()) as nat, |i: int| seq!['0'])) by {
            assert(string_views(r@) =~= string_views(before).push(seq!['0']));
        }
    }
    let ghost r2 = string_views(r@);
    assert(r2 =~= (if r0.len() < 3 + SHOP_TAB_SLOT_COUNT {
        r0 + Seq::new((3 + SHOP_TAB_SLOT_COUNT - r0.len()) as nat, |i: int| seq!['0'])
    } else {
        r0
    }));
    let n = t.items.len();
    let mut slot: usize = 0;
    while slot < n
        invariant
            slot <= n,
            n == t.items@.len(),
            n <= SHOP_TAB_SLOT_COUNT,
            r@.len() == r2.len(),
            r2.len() >= 3 + SHOP_TAB_SLOT_COUNT,
            forall|c: int|
                0 <= c < r2.len() ==> #[trigger] string_views(r@)[c] == if 3 <= c < 3 + slot {
                    decimal_of(t.items@[c - 3] as int)
                } else {
                    r2[c]
                },
        decreases n - slot,
    {
        let text = decimal_string(t.items[slot]);
        let ghost before = r@;
        r.set(3 + slot, text);
        assert(string_views(r@) =~= string_views(before).update(3 + slot as int, text@));
        slot = slot + 1;
    }
    let ghost before = rows@;
    rows.set(t.row, r);
    assert(table_text(rows@) =~= with_tab(old_text, t@)) by {
        assert(string_views(r@) =~= Seq::new(
            r2.len(),
            |c: int|
                if 3 <= c < 3 + t@.items.len() {
                    decimal_of(t@.items[c - 3] as int)
                } else {
                    r2[c]
                },
        ));
    }
}

/// Writes an NPC's tab rows into its row of the NPC table.
fn write_npc(rows: &mut Vec<Vec<String>>, npc: &Npc)
    ensures
        table_text(final(rows)@) == with_npc(table_text(old(rows)@), npc@),
{
    if npc.id < 0 || npc.id as usize >= rows.len() {
        return;
    }
    let data_row = npc.id as usize;
    let mut cells = copy_row(&rows[data_row]);
    let ghost r0 = string_views(cells@);
    let mut i: usize = 0;
    while i < 4
        invariant
            i <= 4,
            cells@.len() == r0.len(),
            forall|c: int|
                0 <= c < r0.len() ==> #[trigger] string_views(cells@)[c] == if 22 <= c < 22 + i {
                    decimal_of(npc@.shop_tab_rows[c - 22] as int)
                } else {
                    r0[c]
                },
        decreases 4 - i,
    {
        let col = 22 + i;
        if cells.len() > col {
            let text = decimal_string(npc.shop_tab_rows[i]);
            let ghost before = cells@;
            cells.set(col, text);
            assert(string_views(cells@) =~= string_views(before).update(col as int, text@));
        }
        i = i + 1;
    }
    rows.set(data_row, cells);
    assert(table_text(rows@) =~= with_npc(table_text(old(rows)@), npc@)) by {
        assert(string_views(cells@) =~= Seq::new(
            r0.len(),
            |c: int|
                if 22 <= c < 26 {
                    decimal_of(npc@.shop_tab_rows[c - 22] as int)
                } else {
                    r0[c]
                },
        ));
    }
}

impl DataSet {
    /// Writes pending edits into the tables: each changed tab's slots into
    /// its sell row, and, when an NPC's tabs changed, every NPC's tab rows
    /// into its NPC row.
    pub fn apply_edits(&mut self)
        requires
            old(self).wf(),
        ensures
            final(self).wf(),
            table_text(final(self).sell_rows@) == with_tabs(
                table_text(old(self).sell_rows@),
                tab_views(old(self).shop_tabs@),
            ),
            table_text(final(self).npc_rows@) == if old(self).any_npc_dirty {
                with_npcs(table_text(old(self).npc_rows@), npc_views(old(self).npcs@))
            } else {
                table_text(old(self).npc_rows@)
            },
            final(self).npcs@ == old(self).npcs@,
            final(self).shop_tabs@ == old(self).shop_tabs@,
            final(self).tab_ref_counts@ == old(self).tab_ref_counts@,
            final(self).any_npc_dirty == old(self).any_npc_dirty,
    {
        let ghost sell0 = table_text(self.sell_rows@);
        let ghost old_self = *self;
        let n = self.shop_tabs.len();
        let mut k: usize = 0;
        while k < n
            invariant
                k <= n,
                n == self.shop_tabs@.len(),
                self.wf(),
                self.shop_tabs@ == old_self.shop_tabs@,
                self.npcs@ == old_self.npcs@,
                self.npc_rows@ == old_self.npc_rows@,
                self.tab_ref_counts@ == old_self.tab_ref_counts@,
                self.any_npc_dirty == old_self.any_npc_dirty,
                sell0 == table_text(old_self.sell_rows@),
                table_text(self.sell_rows@) == with_tabs(sell0, tab_views(self.shop_tabs@).take(k as int)),
                self.sell_rows@.len() >= sell0.len(),
            decreases n - k,
        {
            proof {
                let tv = tab_views(self.shop_tabs@);
                assert(tv.take(k + 1).drop_last() =~= tv.take(k as int));
                assert(tv.take(k + 1).last() == self.shop_tabs@[k as int]@);
            }
            if self.shop_tabs[k].dirty {
                let ghost len0 = self.sell_rows@.len();
                write_tab(&mut self.sell_rows, &self.shop_tabs[k]);
                assert(self.sell_rows@.len() == len0) by {
                    assert(table_text(self.sell_rows@).len() == self.sell_rows@.len());
                }
            }
            k = k + 1;
        }
        assert(tab_views(self.shop_tabs@).take(n as int) =~= tab_views(self.shop_tabs@));
        let ghost mid = *self;
        if self.any_npc_dirty {
            let ghost npc0 = table_text(self.npc_rows@);
            let m = self.npcs.len();
            let mut j: usize = 0;
            while j < m
                invariant
                    j <= m,
                    m == self.npcs@.len(),
                    self.wf(),
                    self.shop_tabs@ == mid.shop_tabs@,
                    self.npcs@ == mid.npcs@,
                    self.sell_rows@ == mid.sell_rows@,
                    self.tab_ref_counts@ == mid.tab_ref_counts@,
                    self.any_npc_dirty == mid.any_npc_dirty,
                    npc0 == table_text(mid.npc_rows@),
                    table_text(self.npc_rows@) == with_npcs(npc0, npc_views(self.npcs@).take(j as int)),
                decreases m - j,
            {
                proof {
                    let nv = npc_views(self.npcs@);
                    assert(nv.take(j + 1).drop_last() =~= nv.take(j as int));
                    assert(nv.take(j + 1).last() == self.npcs@[j as int]@);
                }
                write_npc(&mut self.npc_rows, &self.npcs[j]);
                j = j + 1;
            }
            assert(npc_views(self.npcs@).take(m as int) =~= npc_views(self.npcs@));
        }
    }

    /// After the tables were written: nothing is pending.
    pub fn mark_saved(&mut self)
        requires
            old(self).wf(),
        ensures
            final(self).wf(),
            final(self).shop_tabs@.len() == old(self).shop_tabs@.len(),
            forall|i: int|
                0 <= i < final(self).shop_tabs@.len() ==> #[trigger] final(self).shop_tabs@[i]@ == (TabModel {
                    dirty: false,
                    ..old(self).shop_tabs@[i]@
                }),
            !final(self).any_npc_dirty,
            final(self).sell_rows@ == old(self).sell_rows@,
            final(self).npc_rows@ == old(self).npc_rows@,
            final(self).npcs@ == old(self).npcs@,
            final(self).tab_ref_counts@ == old(self).tab_ref_counts@,
    {
        let ghost old_tabs = self.shop_tabs@;
        let ghost old_self = *self;
        let n = self.shop_tabs.len();
        let mut k: usize = 0;
        while k < n
            invariant
                k <= n,
                n == self.shop_tabs@.len(),
                n == old_tabs.len(),
                old_tabs == old_self.shop_tabs@,
                old_self.wf(),
                self.sell_rows@ == old_self.sell_rows@,
                self.npc_rows@ == old_self.npc_rows@,
                self.npcs@ == old_self.npcs@,
                self.tab_ref_counts@ == old_self.tab_ref_counts@,
                forall|i: int| 0 <= i < n ==> (#[trigger] self.shop_tabs@[i]).row == old_tabs[i].row
                    && self.shop_tabs@[i].items@ == old_tabs[i].items@,
                forall|i: int|
                    0 <= i < n ==> #[trigger] self.shop_tabs@[i]@ == (if i < k {
                        TabModel { dirty: false, ..old_tabs[i]@ }
                    } else {
                        old_tabs[i]@
                    }),
            decreases n - k,
        {
            let ghost before = self.shop_tabs@;
            assert(self.shop_tabs@[k as int]@ == old_tabs[k as int]@);
            let mut tab = self.shop_tabs.remove(k);
            assert(tab == before[k as int]);
            tab.dirty = false;
            self.shop_tabs.insert(k, tab);
            assert(self.shop_tabs@ =~= before.update(k as int, tab));
            assert(tab@ == TabModel { dirty: false, ..old_tabs[k as int]@ });
            assert forall|i: int|
                0 <= i < n implies #[trigger] self.shop_tabs@[i]@ == (if i < k + 1 {
                    TabModel { dirty: false, ..old_tabs[i]@ }
                } else {
                    old_tabs[i]@
                }) by {
                if i != k {
                    assert(self.shop_tabs@[i] == before[i]);
                }
            }
            k = k + 1;
        }
        self.any_npc_dirty = false;
    }
}

/// The first of an NPC's tab slots that names a tab, or slot 0.
pub fn first_valid_tab(npc: &Npc) -> (r: usize)
    ensures
        r < 4,
        (exists|i: int| 0 <= i < 4 && #[trigger] npc.shop_tab_rows@[i] > 0) ==> npc.shop_tab_rows@[r as int] > 0
            && forall|i: int| 0 <= i < r ==> #[trigger] npc.shop_tab_rows@[i] <= 0,
        !(exists|i: int| 0 <= i < 4 && #[trigger] npc.shop_tab_rows@[i] > 0) ==> r == 0,
{
    let mut i: usize = 0;
    while i < 4
        invariant
            i <= 4,
            forall|k: int| 0 <= k < i ==> #[trigger] npc.shop_tab_rows@[k] <= 0,
        decreases 4 - i,
    {
        if npc.shop_tab_rows[i] > 0 {
            return i;
        }
        i = i + 1;
    }
    0
}

/// Empties item slot `slot` of a tab, if the tab has it.
pub fn clear_tab_slot(items: &mut Vec<i32>, slot: usize)
    ensures
        slot < old(items)@.len() ==> final(items)@ == old(items)@.update(slot as int, 0),
        slot >= old(items)@.len() ==> final(items)@ == old(items)@,
{
    if slot < items.len() {
        items.set(slot, 0);
    }
}

/// Puts `full` into the first empty item slot of a tab, if it has one, and
/// gives that slot.
pub fn add_to_first_empty(items: &mut Vec<i32>, full: i32) -> (r: Option<usize>)
    ensures
        match r {
            Some(k) => k < old(items)@.len() && old(items)@[k as int] == 0 && (forall|j: int|
                0 <= j < k ==> #[trigger] old(items)@[j] != 0) && final(items)@ == old(items)@.update(
                k as int,
                full,
            ),
            None => final(items)@ == old(items)@ && forall|j: int|
                0 <= j < old(items)@.len() ==> #[trigger] old(items)@[j] != 0,
        },
{
    let mut k: usize = 0;
    while k < items.len()
        invariant
            k <= items@.len(),
            items@ == old(items)@,
            forall|j: int| 0 <= j < k ==> #[trigger] items@[j] != 0,
        decreases items@.len() - k,
    {
        if items[k] == 0 {
            items.set(k, full);
            return Some(k);
        }
        k = k + 1;
    }
    None
}

proof fn lemma_npcs_upto_len(rows: Seq<Vec<String>>, k: nat)
    ensures
        npcs_upto(rows, k).len() <= k,
    decreases k,
{
    if k > 0 {
        lemma_npcs_upto_len(rows, (k - 1) as nat);
    }
}

/// The tab that sell row `row` holds.
fn load_tab(rows: &Vec<Vec<String>>, row: usize) -> (t: ShopTab)
    requires
        row < rows@.len(),
    ensures
        t@ == loaded_tab(rows@, row as int),
        t.items@.len() == SHOP_TAB_SLOT_COUNT,
{
    let cells = &rows[row];
    let name = if cells.len() > 1 {
        cells[1].clone()
    } else {
        String::new()
    };
    let mut items: Vec<i32> = Vec::new();
    let mut slot: usize = 0;
    while slot < SHOP_TAB_SLOT_COUNT
        invariant
            slot <= SHOP_TAB_SLOT_COUNT,
            row < rows@.len(),
            cells == &rows@[row as int],
            items@.len() == slot,
            forall|s: int| 0 <= s < slot ==> #[trigger] items@[s] == cell_int_or(cells@, 3 + s, 0),
        decreases SHOP_TAB_SLOT_COUNT - slot,
    {
        let v = read_cell_int_or(cells, 3 + slot, 0);
        items.push(v);
        slot = slot + 1;
    }
    let t = ShopTab { row, name, items, dirty: false };
    assert(t@.items =~= loaded_tab(rows@, row as int).items);
    t
}

} // verus!
