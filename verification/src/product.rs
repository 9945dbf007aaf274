//! Crafting recipes read from `LIST_PRODUCT.STB`.
use vstd::prelude::*;

use crate::item_ref::{decode_item_base1000, spec_decode_item_base1000, ItemReference, ItemType};
use crate::stb::{StbFile, StbModel};
use crate::text::parse_i32_spec;

verus! {

/// A single material requirement of a recipe.
#[derive(Debug, Clone, Copy, PartialEq, Eq, Structural)]
pub struct ProductMaterial {
    pub item: ItemReference,
    pub quantity: u32,
}

/// A crafting recipe.
#[derive(Debug, Clone)]
pub struct ProductData {
    /// The raw material class of the first slot.
    pub raw_material_type: u32,
    /// Up to four required materials, in slot order.
    pub materials: Vec<ProductMaterial>,
}

/// Recipes indexed by product number; rows without materials hold no recipe.
pub struct ProductDatabase {
    products: Vec<Option<ProductData>>,
}

impl View for ProductDatabase {
    type V = Seq<Option<ProductData>>;

    closed spec fn view(&self) -> Seq<Option<ProductData>> {
        self.products@
    }
}

impl ProductDatabase {
    pub fn new(products: Vec<Option<ProductData>>) -> (r: ProductDatabase)
        ensures
            r@ == products@,
    {
        ProductDatabase { products }
    }

    /// The recipe with number `product_id`, if there is one.
    pub fn get_product(&self, product_id: u32) -> (r: Option<&ProductData>)
        ensures
            r == (if product_id < self@.len() {
                match self@[product_id as int] {
                    Some(p) => Some(&p),
                    None => None,
                }
            } else {
                None
            }),
    {
        let i = product_id as usize;
        if i < self.products.len() {
            match &self.products[i] {
                Some(p) => Some(p),
                None => None,
            }
        } else {
            None
        }
    }

    /// Rows, with or without a recipe.
    pub fn len(&self) -> (r: usize)
        ensures
            r == self@.len(),
    {
        self.products.len()
    }

    pub fn is_empty(&self) -> (r: bool)
        ensures
            r == (self@.len() == 0),
    {
        self.products.len() == 0
    }
}

/// What a material code of a recipe stands for: nothing when not positive, a
/// combined item code from 1000 on, and below that a class-coded raw material
/// taken as that number among the materials.
pub open spec fn spec_product_material_item(code: i32) -> Option<ItemReference> {
    if code <= 0 {
        None
    } else if code >= 1000 {
        spec_decode_item_base1000(code as int)
    } else {
        Some(ItemReference { item_type: ItemType::Material, item_number: code as usize })
    }
}

/// The item that a material code of recipe row `row`, slot `slot` stands for.
pub fn decode_product_material_item(material_code: i32, row: usize, slot: usize) -> (r: Option<
    ItemReference,
>)
    ensures
        r == spec_product_material_item(material_code),
{
    if material_code <= 0 {
        return None;
    }
    let material_code = material_code as usize;
    if material_code >= 1000 {
        return decode_item_base1000(material_code);
    }
    Some(ItemReference::new(ItemType::Material, material_code))
}

/// A cell as an integer, 0 when out of range, empty or not a number.
pub open spec fn int_cell(m: StbModel, row: int, column: int) -> i32 {
    match m.cell(row, column) {
        Some(c) => match parse_i32_spec(c) {
            Some(v) => v,
            None => 0,
        },
        None => 0,
    }
}

/// The material code of slot `slot`: slot 0 takes the raw material code when
/// it is positive and the first item code otherwise.
pub open spec fn material_code(m: StbModel, row: int, slot: int) -> i32 {
    if slot == 0 {
        if int_cell(m, row, 1) > 0 {
            int_cell(m, row, 1)
        } else {
            int_cell(m, row, 2)
        }
    } else {
        int_cell(m, row, 2 + slot * 2)
    }
}

/// The material of slot `slot`, when its quantity is not zero and its code
/// stands for an item.
pub open spec fn slot_material(m: StbModel, row: int, slot: int) -> Option<ProductMaterial> {
    let quantity = int_cell(m, row, 3 + slot * 2) as u32;
    if quantity != 0 {
        match spec_product_material_item(material_code(m, row, slot)) {
            Some(item) => Some(ProductMaterial { item, quantity }),
            None => None,
        }
    } else {
        None
    }
}

/// The materials present in the first `n` slots, in slot order.
pub open spec fn row_materials(m: StbModel, row: int, n: nat) -> Seq<ProductMaterial>
    decreases n,
{
    if n == 0 {
        Seq::<ProductMaterial>::empty()
    } else {
        match slot_material(m, row, n - 1) {
            Some(x) => row_materials(m, row, (n - 1) as nat).push(x),
            None => row_materials(m, row, (n - 1) as nat),
        }
    }
}

/// The recipe of a row matches the table: its raw material type is column 1
/// and its materials those of the four slots.
pub open spec fn recipe_matches(p: Option<ProductData>, m: StbModel, row: int) -> bool {
    let mats = row_materials(m, row, 4);
    if mats.len() == 0 {
        p is None
    } else {
        p matches Some(d) && d.raw_material_type == int_cell(m, row, 1) as u32 && d.materials@
            == mats
    }
}

/// Builds the recipe database from `LIST_PRODUCT.STB`: one entry per row.
pub fn get_product_database(data: &StbFile) -> (r: ProductDatabase)
    requires
        data.wf(),
    ensures
        r@.len() == data@.rows(),
        forall|id: int| 0 <= id < data@.rows() ==> recipe_matches(#[trigger] r@[id], data@, id),
{
    let rows = data.rows();
    let mut products: Vec<Option<ProductData>> = Vec::new();
    let mut id: usize = 0;
    while id < rows
        invariant
            data.wf(),
            rows == data@.rows(),
            id <= rows,
            products@.len() == id,
            forall|k: int| 0 <= k < id ==> recipe_matches(#[trigger] products@[k], data@, k),
        decreases rows - id,
    {
        let raw_material_type = data.get_int(id, 1) as u32;
        let mut materials: Vec<ProductMaterial> = Vec::new();
        let mut slot: usize = 0;
        while slot < 4
            invariant
                data.wf(),
                id < data@.rows(),
                slot <= 4,
                materials@ == row_materials(data@, id as int, slot as nat),
            decreases 4 - slot,
        {
            let quantity = data.get_int(id, 3 + slot * 2) as u32;
            let material_code = if slot == 0 {
                let raw_material_code = data.get_int(id, 1);
                if raw_material_code > 0 {
                    raw_material_code
                } else {
                    data.get_int(id, 2)
                }
            } else {
                data.get_int(id, 2 + slot * 2)
            };
            if quantity != 0 {
                if let Some(item) = decode_product_material_item(material_code, id, slot) {
                    materials.push(ProductMaterial { item, quantity });
                }
            }
            slot = slot + 1;
        }
        if materials.len() == 0 {
            products.push(None);
        } else {
            products.push(Some(ProductData { raw_material_type, materials }));
        }
        id = id + 1;
    }
    ProductDatabase::new(products)
}

} // verus!
