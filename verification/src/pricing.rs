//! Which warehouse size the savings ledger prices an avoided execution at.
//! The proxy cannot see sizes; the configuration names them per warehouse,
//! with a default for the rest.
use crate::plugin::{size_named, WarehouseSize};
use crate::text::{to_uppercase, unicode_uppercase};
use crate::text_map::TextMap;
use vstd::prelude::*;

verus! {

/// The configured sizes, in the order given: each warehouse name
/// upper-cased with the size its text names. Entries whose size does not
/// parse are left out; a later entry for the same upper-cased name wins.
pub open spec fn sizes_map(pairs: Seq<(Seq<char>, Seq<char>)>) -> Map<Seq<char>, WarehouseSize>
    decreases pairs.len(),
{
    if pairs.len() == 0 {
        Map::empty()
    } else {
        let m = sizes_map(pairs.drop_last());
        match size_named(unicode_uppercase(pairs.last().1)) {
            Some(z) => m.insert(unicode_uppercase(pairs.last().0), z),
            None => m,
        }
    }
}

pub open spec fn pair_views(v: Seq<(String, String)>) -> Seq<(Seq<char>, Seq<char>)> {
    v.map_values(|p: (String, String)| (p.0@, p.1@))
}

/// The size a default-size text names, medium when it names none.
pub open spec fn default_size_named(name: Seq<char>) -> WarehouseSize {
    match size_named(unicode_uppercase(name)) {
        Some(z) => z,
        None => WarehouseSize::M,
    }
}

/// Warehouse sizes for pricing.
pub struct WarehouseSizes {
    by_name: TextMap<WarehouseSize>,
    default: WarehouseSize,
}

impl WarehouseSizes {
    pub closed spec fn spec_map(&self) -> Map<Seq<char>, WarehouseSize> {
        self.by_name@
    }

    pub closed spec fn spec_default(&self) -> WarehouseSize {
        self.default
    }

    /// The sizes of a savings configuration: its default size's text and
    /// its (warehouse, size) entries in the order they are listed.
    pub fn from_config(default_size: &str, pairs: &Vec<(String, String)>) -> (r: Self)
        ensures
            r.spec_default() == default_size_named(default_size@),
            r.spec_map() == sizes_map(pair_views(pairs@)),
    {
        let default = match WarehouseSize::from_str(default_size) {
            Ok(z) => z,
            Err(_) => WarehouseSize::M,
        };
        let ghost pv = pair_views(pairs@);
        let mut by_name: TextMap<WarehouseSize> = TextMap::new();
        let mut i: usize = 0;
        while i < pairs.len()
            invariant
                i <= pairs@.len(),
                pv == pair_views(pairs@),
                by_name@ == sizes_map(pv.take(i as int)),
            decreases pairs.len() - i,
        {
            assert(pv.take(i + 1).drop_last() =~= pv.take(i as int));
            assert(pv.take(i + 1).last() == pv[i as int]);
            match WarehouseSize::from_str(pairs[i].1.as_str()) {
                Ok(z) => {
                    let key = to_uppercase(pairs[i].0.as_str());
                    by_name.insert(key, z);
                },
                Err(_) => {},
            }
            i = i + 1;
        }
        assert(pv.take(pairs@.len() as int) =~= pv);
        WarehouseSizes { by_name, default }
    }

    /// The size `warehouse` is priced at: its configured size, compared
    /// upper-cased, else the default.
    pub fn size_for(&self, warehouse: Option<&str>) -> (r: WarehouseSize)
        ensures
            r == match warehouse {
                Some(w) => if self.spec_map().contains_key(unicode_uppercase(w@)) {
                    self.spec_map()[unicode_uppercase(w@)]
                } else {
                    self.spec_default()
                },
                None => self.spec_default(),
            },
    {
        match warehouse {
            Some(w) => {
                let upper = to_uppercase(w);
                match self.by_name.get(upper.as_str()) {
                    Some(z) => *z,
                    None => self.default,
                }
            },
            None => self.default,
        }
    }
}

} // verus!
