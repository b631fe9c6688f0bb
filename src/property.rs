//! Task properties: a scalar string or a map from names to properties.
use vstd::prelude::*;
use crate::subst::{Context, replace_all_from};
use crate::model::{prop_view, mat_prop, entries_view, mat_entries, lemma_entries_view_push, lemma_entries_view_prefix, lemma_mat_entries_push};

verus! {

broadcast use vstd::std_specs::vec::group_vec_axioms;

/// A property value. Scalars are strings; a map keeps its entries in the
/// order they were written.
pub enum Property {
    Simple(String),
    Mapping(Vec<(String, Property)>),
}

/// Returns a copy of `prop` whose scalars have had their placeholders
/// replaced from `context`; `prop` itself is left as it is.
pub fn replace_property_with_context<C: Context>(prop: &Property, context: &C) -> (r: Property)
    ensures
        prop_view(r) == mat_prop(prop_view(*prop), |k: Seq<char>| context.lookup(k)),
    decreases prop,
{
    match prop {
        Property::Simple(s) => Property::Simple(replace_all_from(s.as_str(), context)),
        Property::Mapping(m) => {
            let ghost lk = |k: Seq<char>| context.lookup(k);
            let mut out: Vec<(String, Property)> = Vec::new();
            let mut i: usize = 0;
            while i < m.len()
                invariant
                    i <= m@.len(),
                    *prop == Property::Mapping(*m),
                    lk == (|k: Seq<char>| context.lookup(k)),
                    entries_view(out@) == mat_entries(entries_view(m@.subrange(0, i as int)), lk),
                decreases m@.len() - i,
            {
                proof {
                    assert(decreases_to!(*prop => prop->Mapping_0));
                    assert(decreases_to!(m => m[i as int]));
                    assert(decreases_to!(m[i as int] => m[i as int].1));
                    assert(decreases_to!(*prop => m[i as int].1));
                }
                let v = replace_property_with_context(&m[i].1, context);
                let ghost prev = out@;
                out.push((m[i].0.clone(), v));
                proof {
                    lemma_entries_view_push(prev, (m@[i as int].0, v));
                    lemma_entries_view_prefix(m@, i as int);
                    lemma_mat_entries_push(entries_view(m@.subrange(0, i as int)), (m@[i as int].0@, prop_view(m@[i as int].1)), lk);
                }
                i = i + 1;
            }
            proof {
                assert(m@.subrange(0, m@.len() as int) =~= m@);
            }
            Property::Mapping(out)
        },
    }
}

} // verus!
