//! The materials of the material libraries, filed by library file name and
//! material name.
use vstd::prelude::*;
use crate::models::mtl_loader::{Material, MaterialView, material_map, material_views, lookup_material};

verus! {

/// A material store: for each material library file name, the materials it
/// defines by name.
#[derive(Debug)]
pub struct MaterialStore {
    entries: Vec<(String, Material)>,
}

/// The views of the store's entries, in the order they were filed.
pub open spec fn entry_views(es: Seq<(String, Material)>) -> Seq<(Seq<char>, MaterialView)> {
    es.map_values(|e: (String, Material)| (e.0@, e.1@))
}

/// The material most recently filed under library `file` and name `name`.
pub open spec fn lookup_entry(es: Seq<(Seq<char>, MaterialView)>, file: Seq<char>, name: Seq<char>) -> Option<
    MaterialView,
>
    decreases es.len(),
{
    if es.len() == 0 {
        None
    } else if es.last().0 == file && es.last().1.name == name {
        Some(es.last().1)
    } else {
        lookup_entry(es.drop_last(), file, name)
    }
}

/// The store `store` after the materials `mats` of library `file` are filed:
/// each replaces any material of the same library and name.
pub open spec fn put_spec(
    store: Map<(Seq<char>, Seq<char>), MaterialView>,
    file: Seq<char>,
    mats: Map<Seq<char>, MaterialView>,
) -> Map<(Seq<char>, Seq<char>), MaterialView> {
    Map::new(
        |k: (Seq<char>, Seq<char>)| store.contains_key(k) || (k.0 == file && mats.contains_key(k.1)),
        |k: (Seq<char>, Seq<char>)|
            if k.0 == file && mats.contains_key(k.1) {
                mats[k.1]
            } else {
                store[k]
            },
    )
}

impl View for MaterialStore {
    type V = Map<(Seq<char>, Seq<char>), MaterialView>;

    closed spec fn view(&self) -> Map<(Seq<char>, Seq<char>), MaterialView> {
        Map::new(
            |k: (Seq<char>, Seq<char>)| lookup_entry(entry_views(self.entries@), k.0, k.1) is Some,
            |k: (Seq<char>, Seq<char>)| lookup_entry(entry_views(self.entries@), k.0, k.1)->0,
        )
    }
}

impl MaterialStore {
    /// An empty store.
    pub fn new() -> (store: Self)
        ensures
            store@ == Map::<(Seq<char>, Seq<char>), MaterialView>::empty(),
    {
        let store = Self { entries: Vec::new() };
        assert(store@ =~= Map::<(Seq<char>, Seq<char>), MaterialView>::empty());
        store
    }

    /// Files the materials of the library `file_name`; a material replaces
    /// any earlier one of the same library and name.
    pub fn put(&mut self, file_name: &str, materials: &[Material])
        ensures
            final(self)@ == put_spec(old(self)@, file_name@, material_map(material_views(materials@))),
    {
        let mut i: usize = 0;
        assert(material_views(materials@).take(0) =~= seq![]);
        assert(put_spec(old(self)@, file_name@, material_map(seq![])) =~= old(self)@);
        while i < materials.len()
            invariant
                i <= materials@.len(),
                self@ == put_spec(old(self)@, file_name@, material_map(material_views(materials@).take(i as int))),
            decreases materials@.len() - i,
        {
            let ghost before = self@;
            let ghost e0 = entry_views(self.entries@);
            let ghost prefix = material_views(materials@).take(i as int);
            let file = String::from_str(file_name);
            let m = materials[i].duplicate();
            let ghost mv = m@;
            self.entries.push((file, m));
            i = i + 1;
            proof {
                let next = material_views(materials@).take(i as int);
                assert(next.drop_last() =~= prefix);
                assert(next.last() == materials@[i - 1]@);
                assert(mv == materials@[i - 1]@);
                let e1 = entry_views(self.entries@);
                assert(e1 =~= e0.push((file_name@, mv)));
                assert(e1.drop_last() =~= e0);
                let target = put_spec(old(self)@, file_name@, material_map(next));
                assert forall|k: (Seq<char>, Seq<char>)| self@.dom().contains(k) == target.dom().contains(k) by {
                    assert(lookup_entry(e1, k.0, k.1) == if file_name@ == k.0 && mv.name == k.1 {
                        Some(mv)
                    } else {
                        lookup_entry(e0, k.0, k.1)
                    });
                    assert(lookup_material(next, k.1) == if mv.name == k.1 {
                        Some(mv)
                    } else {
                        lookup_material(prefix, k.1)
                    });
                    assert(before.contains_key(k) == (lookup_entry(e0, k.0, k.1) is Some));
                    assert(before.contains_key(k) ==> before[k] == lookup_entry(e0, k.0, k.1)->0);
                    assert(self@.contains_key(k) == (lookup_entry(e1, k.0, k.1) is Some));
                    assert(self@.contains_key(k) ==> self@[k] == lookup_entry(e1, k.0, k.1)->0);
                    assert(material_map(next).contains_key(k.1) == (lookup_material(next, k.1) is Some));
                    assert(material_map(prefix).contains_key(k.1) == (lookup_material(prefix, k.1) is Some));
                    assert(material_map(next).contains_key(k.1) ==> material_map(next)[k.1] == lookup_material(next, k.1)->0);
                    assert(material_map(prefix).contains_key(k.1) ==> material_map(prefix)[k.1] == lookup_material(prefix, k.1)->0);
                }
                assert(self@.dom() =~= target.dom());
                assert forall|k: (Seq<char>, Seq<char>)| self@.dom().contains(k) implies self@[k] == target[k] by {
                    assert(lookup_entry(e1, k.0, k.1) == if file_name@ == k.0 && mv.name == k.1 {
                        Some(mv)
                    } else {
                        lookup_entry(e0, k.0, k.1)
                    });
                    assert(lookup_material(next, k.1) == if mv.name == k.1 {
                        Some(mv)
                    } else {
                        lookup_material(prefix, k.1)
                    });
                    assert(before.contains_key(k) == (lookup_entry(e0, k.0, k.1) is Some));
                    assert(before.contains_key(k) ==> before[k] == lookup_entry(e0, k.0, k.1)->0);
                    assert(self@.contains_key(k) == (lookup_entry(e1, k.0, k.1) is Some));
                    assert(self@.contains_key(k) ==> self@[k] == lookup_entry(e1, k.0, k.1)->0);
                    assert(material_map(next).contains_key(k.1) == (lookup_material(next, k.1) is Some));
                    assert(material_map(prefix).contains_key(k.1) == (lookup_material(prefix, k.1) is Some));
                    assert(material_map(next).contains_key(k.1) ==> material_map(next)[k.1] == lookup_material(next, k.1)->0);
                    assert(material_map(prefix).contains_key(k.1) ==> material_map(prefix)[k.1] == lookup_material(prefix, k.1)->0);
                }
                assert(self@ =~= target);
            }
        }
        assert(material_views(materials@).take(i as int) =~= material_views(materials@));
    }

    /// The material `material_name` of the library `file_name`, if filed.
    pub fn get(&self, file_name: &str, material_name: &str) -> (material: Option<&Material>)
        ensures
            match material {
                Some(m) => self@.contains_key((file_name@, material_name@)) && m@ == self@[(
                    file_name@,
                    material_name@,
                )],
                None => !self@.contains_key((file_name@, material_name@)),
            },
    {
        let file = String::from_str(file_name);
        let name = String::from_str(material_name);
        let ghost es = entry_views(self.entries@);
        let mut i = self.entries.len();
        assert(es.take(i as int) =~= es);
        while i > 0
            invariant
                i <= self.entries@.len(),
                es == entry_views(self.entries@),
                file@ == file_name@,
                name@ == material_name@,
                lookup_entry(es.take(i as int), file@, name@) == lookup_entry(es, file@, name@),
            decreases i,
        {
            i = i - 1;
            let ghost prefix = es.take(i + 1);
            assert(prefix.drop_last() =~= es.take(i as int));
            assert(prefix.last() == es[i as int]);
            if self.entries[i].0 == file && self.entries[i].1.name == name {
                return Some(&self.entries[i].1);
            }
        }
        assert(es.take(0) =~= seq![]);
        None
    }
}


/// Reading back after filing: a material of the filed library is found under
/// that library and its name; every other entry of the store is unchanged.
pub proof fn lemma_get_after_put(
    store: Map<(Seq<char>, Seq<char>), MaterialView>,
    file: Seq<char>,
    mats: Map<Seq<char>, MaterialView>,
    f: Seq<char>,
    n: Seq<char>,
)
    ensures
        f == file && mats.contains_key(n) ==> put_spec(store, file, mats).contains_key((f, n))
            && put_spec(store, file, mats)[(f, n)] == mats[n],
        !(f == file && mats.contains_key(n)) ==> (put_spec(store, file, mats).contains_key((f, n))
            == store.contains_key((f, n)) && (store.contains_key((f, n)) ==> put_spec(store, file, mats)[(
            f,
            n,
        )] == store[(f, n)])),
{
}

} // verus!
