//! The cascade merger.
//!
//! `cascade` folds one declaration into the working map of the current pass.
//! The first declaration offered for a name wins (the caller hands
//! declarations over in priority order). The working map starts absent and
//! is materialized from the inherited baseline the first time any
//! declaration is seen, so a pass that declares nothing allocates nothing.

use vstd::prelude::*;
use std::sync::Arc;
use crate::scan::Value;
use crate::table::{NameSet, NameTable};

verus! {

/// One working-map value: its text, and, for a value declared in this pass,
/// the references its scan collected. A value carried over from the
/// inherited baseline is already fully substituted and carries `None`.
pub struct BorrowedValue {
    pub value: String,
    pub references: Option<NameSet>,
}

/// A declared value for one (name, priority) pair of the cascade.
pub enum DeclaredValue {
    Value(Value),
    Initial,
    Inherit,
}

/// The working-map entry that a baseline text is carried over as.
pub open spec fn carried(text: String) -> BorrowedValue {
    BorrowedValue { value: text, references: None }
}

/// A baseline map, carried over entry by entry.
pub open spec fn carried_map(m: Map<Seq<char>, String>) -> Map<Seq<char>, BorrowedValue> {
    Map::new(|k: Seq<char>| m.dom().contains(k), |k: Seq<char>| carried(m[k]))
}

/// The map that the working pass starts from when a declaration arrives:
/// the map so far, else the materialized inherited baseline, else empty.
pub open spec fn working_base(
    cur: Option<NameTable<BorrowedValue>>,
    inh: Option<Arc<NameTable<String>>>,
) -> Map<Seq<char>, BorrowedValue> {
    match cur {
        Some(m) => m.as_map(),
        None => match inh {
            Some(b) => carried_map((*b).as_map()),
            None => Map::empty(),
        },
    }
}

/// What one declaration does to the working map.
pub open spec fn cascaded_map(
    base: Map<Seq<char>, BorrowedValue>,
    name: Seq<char>,
    value: DeclaredValue,
) -> Map<Seq<char>, BorrowedValue> {
    match value {
        DeclaredValue::Value(v) => base.insert(
            name,
            BorrowedValue { value: v.value, references: Some(v.references) },
        ),
        DeclaredValue::Initial => base.remove(name),
        DeclaredValue::Inherit => base,
    }
}

/// Relies on std::sync::Arc::as_ref: a shared handle reads the one value it
/// points to.
#[verifier::external_body]
fn arc_table<'a>(b: &'a Arc<NameTable<String>>) -> (r: &'a NameTable<String>)
    ensures
        *r == **b,
{
    b.as_ref()
}

/// Relies on std::sync::Arc::clone: a new handle to the same value, at the
/// cost of a reference-count increment; no entry is copied.
#[verifier::external_body]
pub(crate) fn arc_clone(b: &Arc<NameTable<String>>) -> (r: Arc<NameTable<String>>)
    ensures
        r == *b,
{
    Arc::clone(b)
}

/// Copies the inherited baseline into a fresh working map, each entry
/// becoming a carried-over value without references.
fn materialize(inherited: &Option<Arc<NameTable<String>>>) -> (r: NameTable<BorrowedValue>)
    ensures
        r.wf(),
        r.as_map() == working_base(None, *inherited),
{
    let mut t: NameTable<BorrowedValue> = NameTable::new();
    match inherited {
        None => {
            proof {
                assert(t.as_map() =~= working_base(None, *inherited));
            }
            t
        },
        Some(b) => {
            let tbl = arc_table(b);
            let ghost es = tbl.entries@;
            let mut i: usize = 0;
            while i < tbl.entries.len()
                invariant
                    i <= es.len(),
                    es == tbl.entries@,
                    *tbl == **b,
                    t.wf(),
                    t.as_map() == carried_map(crate::table::assoc_map(es.take(i as int))),
                decreases es.len() - i,
            {
                let pair = &tbl.entries[i];
                let text = pair.1.clone();
                t.insert(pair.0.clone(), BorrowedValue { value: text, references: None });
                proof {
                    assert(es.take(i as int).push(es[i as int]) =~= es.take(i as int + 1));
                    crate::table::lemma_assoc_push(es.take(i as int), es[i as int].0, es[i as int].1);
                    assert(carried_map(
                        crate::table::assoc_map(es.take(i as int)).insert(
                            es[i as int].0@,
                            es[i as int].1,
                        ),
                    ) =~= carried_map(crate::table::assoc_map(es.take(i as int))).insert(
                        es[i as int].0@,
                        carried(es[i as int].1),
                    ));
                }
                i = i + 1;
            }
            proof {
                assert(es.take(es.len() as int) =~= es);
            }
            t
        },
    }
}

/// Adds one custom property declaration to the working map, unless another
/// with the same name was already offered in this pass.
pub fn cascade(
    custom_properties: &mut Option<NameTable<BorrowedValue>>,
    inherited_custom_properties: &Option<Arc<NameTable<String>>>,
    seen: &mut NameSet,
    name: &String,
    value: DeclaredValue,
)
    requires
        (*old(custom_properties)) matches Some(m) ==> m.wf(),
    ensures
        (*final(custom_properties)) matches Some(m) ==> m.wf(),
        final(seen).as_set() == old(seen).as_set().insert(name@),
        old(seen).as_set().contains(name@) ==> *final(custom_properties) == *old(custom_properties),
        !old(seen).as_set().contains(name@) ==> ((*final(custom_properties)) matches Some(m)
            && m.as_map() == cascaded_map(
            working_base(*old(custom_properties), *inherited_custom_properties),
            name@,
            value,
        )),
{
    let was_not_already_present = !seen.contains(name);
    seen.insert(name.clone());
    if was_not_already_present {
        let mut map: NameTable<BorrowedValue> = match custom_properties.take() {
            Some(m) => m,
            None => materialize(inherited_custom_properties),
        };
        match value {
            DeclaredValue::Value(v) => {
                map.insert(
                    name.clone(),
                    BorrowedValue { value: v.value, references: Some(v.references) },
                );
            },
            DeclaredValue::Initial => {
                map.remove(name);
            },
            DeclaredValue::Inherit => {},  // The inherited value is what we already have.
        }
        *custom_properties = Some(map);
    }
}

} // verus!
