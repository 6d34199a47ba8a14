//! Laws of the whole run.
//!
//! - Transitive retention soundness: every symbol reachable from the
//!   retained exports through reference chains keeps its binding.
//! - Minimality pressure: no unreferenced plain declaration is left behind.
//! - Idempotence: running the engine a second time with the same retain set
//!   returns the module unchanged.
//!
//! These hold for well-formed inputs: modules whose patterns do not contain
//! the sweep's `Invalid` sentinel and whose named exports and variable
//! declarations are not empty shells — exactly the degenerate placeholders a
//! sweep discards without recording a change.

use vstd::prelude::*;
use crate::ast::{DeclV, DeclaratorV, ExportSpecifierV, ImportSpecifierV, ItemV, PatV, PropV};
use crate::sweep::{
    empty_export_item, sw_decls, sw_declarator, sw_export_specs, sw_import_specs, sw_item,
    sw_items, sw_live, sw_pat, sw_prop, sw_props, sw_slots, SweepSt,
};
use crate::analysis::{
    decl_refs, decl_retained, declarator_refs, decls_binders, decls_refs, export_spec_kept_refs,
    export_spec_retained, export_specs_kept_refs, item_kept_refs, item_other_refs, kept_refs,
    opt_expr_refs, other_refs, pat_binders, pat_refs, prop_binders, prop_refs, props_binders,
    props_refs, slot_refs, slots_binders, slots_refs,
};
use crate::liveness::idset;
use crate::ast::module_size;
use crate::engine::{
    drive, lemma_sw_decls_size, lemma_sw_export_specs_len, lemma_sw_import_specs_len,
    lemma_sw_items_size, lemma_sw_module_size, lemma_sw_props_size, lemma_sw_slots_size,
};
use crate::laws::{
    lemma_decls_binders_cons, lemma_props_binders_cons, lemma_slots_binders_cons,
};


verus! {

// ----------------------------------------------------------------------------
// Well-formed trees: no `Invalid` sentinel, no empty placeholder items.
// ----------------------------------------------------------------------------

pub open spec fn wf_pat(p: PatV) -> bool
    decreases p,
{
    match p {
        PatV::Ident(_) => true,
        PatV::Array(slots) => wf_slots(slots),
        PatV::Object(props) => wf_props(props),
        PatV::Rest(inner) => wf_pat(*inner),
        PatV::Invalid => false,
    }
}

pub open spec fn wf_slots(s: Seq<Option<PatV>>) -> bool
    decreases s,
{
    if s.len() == 0 {
        true
    } else {
        wf_slots(s.drop_first()) && match s[0] {
            Option::None => true,
            Option::Some(p) => wf_pat(p),
        }
    }
}

pub open spec fn wf_props(s: Seq<PropV>) -> bool
    decreases s,
{
    if s.len() == 0 {
        true
    } else {
        wf_props(s.drop_first()) && wf_prop(s[0])
    }
}

pub open spec fn wf_prop(p: PropV) -> bool
    decreases p,
{
    match p {
        PropV::KeyValue(inner) => wf_pat(*inner),
        PropV::Assign { .. } => true,
        PropV::Rest(inner) => wf_pat(*inner),
    }
}

pub open spec fn wf_declarator(d: DeclaratorV) -> bool {
    wf_pat(d.name)
}

pub open spec fn wf_decls(s: Seq<DeclaratorV>) -> bool
    decreases s,
{
    if s.len() == 0 {
        true
    } else {
        wf_decls(s.drop_first()) && wf_declarator(s[0])
    }
}

pub open spec fn wf_item(it: ItemV) -> bool {
    match it {
        ItemV::ExportNamed { specifiers, .. } => specifiers.len() > 0,
        ItemV::ExportDecl { decl } => match decl {
            DeclV::Var { decls } => decls.len() > 0 && wf_decls(decls),
            _ => true,
        },
        ItemV::Decl { decl } => match decl {
            DeclV::Var { decls } => decls.len() > 0 && wf_decls(decls),
            _ => true,
        },
        _ => true,
    }
}

pub open spec fn wf_items(s: Seq<ItemV>) -> bool
    decreases s,
{
    if s.len() == 0 {
        true
    } else {
        wf_items(s.drop_first()) && wf_item(s[0])
    }
}

// ----------------------------------------------------------------------------
// A sweep's output is well-formed (up to the normalization item).
// ----------------------------------------------------------------------------

proof fn lemma_sw_pat_wf(kept: Set<u64>, p: PatV, st: SweepSt)
    ensures
        ({
            let (q, st1) = sw_pat(kept, p, st);
            q is Invalid || wf_pat(q)
        }),
    decreases p,
{
    match p {
        PatV::Ident(_) => {},
        PatV::Array(slots) => {
            if slots.len() > 0 {
                lemma_sw_slots_wf(kept, slots, st);
            } else {
                assert(wf_slots(slots));
            }
        },
        PatV::Object(props) => {
            if props.len() > 0 {
                lemma_sw_props_wf(kept, props, st);
            } else {
                assert(wf_props(props));
            }
        },
        PatV::Rest(inner) => {
            lemma_sw_pat_wf(kept, *inner, st);
        },
        PatV::Invalid => {},
    }
}

proof fn lemma_sw_slots_wf(kept: Set<u64>, s: Seq<Option<PatV>>, st: SweepSt)
    ensures
        wf_slots(sw_slots(kept, s, st).0),
    decreases s,
{
    if s.len() > 0 {
        match s[0] {
            Option::None => {
                lemma_sw_slots_wf(kept, s.drop_first(), st);
                let (rest, st1) = sw_slots(kept, s.drop_first(), st);
                assert((seq![Option::<PatV>::None] + rest).drop_first() =~= rest);
            },
            Option::Some(p) => {
                lemma_sw_pat_wf(kept, p, st);
                let (q, st1) = sw_pat(kept, p, st);
                lemma_sw_slots_wf(kept, s.drop_first(), st1);
                let (rest, st2) = sw_slots(kept, s.drop_first(), st1);
                if !(q is Invalid) {
                    assert((seq![Option::Some(q)] + rest).drop_first() =~= rest);
                }
            },
        }
    }
}

proof fn lemma_sw_props_wf(kept: Set<u64>, s: Seq<PropV>, st: SweepSt)
    ensures
        wf_props(sw_props(kept, s, st).0),
    decreases s,
{
    if s.len() > 0 {
        lemma_sw_prop_wf(kept, s[0], st);
        let (out0, st1) = sw_prop(kept, s[0], st);
        lemma_sw_props_wf(kept, s.drop_first(), st1);
        let (rest, st2) = sw_props(kept, s.drop_first(), st1);
        match out0 {
            Option::None => {},
            Option::Some(q) => {
                assert((seq![q] + rest).drop_first() =~= rest);
            },
        }
    }
}

proof fn lemma_sw_prop_wf(kept: Set<u64>, p: PropV, st: SweepSt)
    ensures
        ({
            let (out, st1) = sw_prop(kept, p, st);
            out is Some ==> wf_prop(out->0)
        }),
    decreases p,
{
    match p {
        PropV::KeyValue(inner) => {
            lemma_sw_pat_wf(kept, *inner, st);
        },
        PropV::Assign { .. } => {},
        PropV::Rest(inner) => {
            lemma_sw_pat_wf(kept, *inner, st);
        },
    }
}

proof fn lemma_sw_decls_wf(kept: Set<u64>, s: Seq<DeclaratorV>, st: SweepSt)
    ensures
        wf_decls(sw_decls(kept, s, st).0),
    decreases s,
{
    if s.len() > 0 {
        lemma_sw_pat_wf(kept, s[0].name, st);
        let (out0, st1) = sw_declarator(kept, s[0], st);
        lemma_sw_decls_wf(kept, s.drop_first(), st1);
        let (rest, st2) = sw_decls(kept, s.drop_first(), st1);
        match out0 {
            Option::None => {},
            Option::Some(q) => {
                assert((seq![q] + rest).drop_first() =~= rest);
            },
        }
    }
}

proof fn lemma_sw_item_wf(r: Set<Seq<char>>, kept: Set<u64>, it: ItemV, st: SweepSt)
    ensures
        ({
            let (out, st1) = sw_item(r, kept, it, st);
            out is Some ==> wf_item(out->0)
        }),
{
    match it {
        ItemV::ExportDecl { decl } => match decl {
            DeclV::Var { decls } => {
                lemma_sw_decls_wf(kept, decls, st);
            },
            _ => {},
        },
        ItemV::Decl { decl } => match decl {
            DeclV::Var { decls } => {
                lemma_sw_decls_wf(kept, decls, st);
            },
            _ => {},
        },
        _ => {},
    }
}

proof fn lemma_sw_items_wf(r: Set<Seq<char>>, kept: Set<u64>, s: Seq<ItemV>, st: SweepSt)
    ensures
        wf_items(sw_items(r, kept, s, st).0),
    decreases s,
{
    if s.len() > 0 {
        lemma_sw_item_wf(r, kept, s[0], st);
        let (out0, st1) = sw_item(r, kept, s[0], st);
        lemma_sw_items_wf(r, kept, s.drop_first(), st1);
        let (rest, st2) = sw_items(r, kept, s.drop_first(), st1);
        match out0 {
            Option::None => {},
            Option::Some(q) => {
                assert((seq![q] + rest).drop_first() =~= rest);
            },
        }
    }
}

// ----------------------------------------------------------------------------
// A sweep that reports no change returns a well-formed tree unchanged.
// ----------------------------------------------------------------------------

proof fn lemma_sw_pat_nc(kept: Set<u64>, p: PatV, st: SweepSt)
    requires
        wf_pat(p),
        !st.changed,
    ensures
        !sw_pat(kept, p, st).1.changed ==> sw_pat(kept, p, st) == (p, st),
    decreases p,
{
    match p {
        PatV::Ident(_) => {},
        PatV::Array(slots) => {
            if slots.len() > 0 {
                lemma_sw_slots_nc(kept, slots, st);
                let (out, st1) = sw_slots(kept, slots, st);
                if !st1.changed {
                    assert(out == slots);
                }
            }
        },
        PatV::Object(props) => {
            if props.len() > 0 {
                lemma_sw_props_nc(kept, props, st);
                let (out, st1) = sw_props(kept, props, st);
                if !st1.changed {
                    assert(out == props);
                }
            }
        },
        PatV::Rest(inner) => {
            lemma_sw_pat_nc(kept, *inner, st);
            let (q, st1) = sw_pat(kept, *inner, st);
            if !st1.changed {
                assert(q == *inner);
                assert(!(q is Invalid)) by {
                    if *inner is Invalid {
                        assert(!wf_pat(*inner));
                    }
                }
                assert(PatV::Rest(Box::new(q)) == p);
            }
        },
        PatV::Invalid => {
            assert(!wf_pat(p));
        },
    }
}

proof fn lemma_sw_slots_nc(kept: Set<u64>, s: Seq<Option<PatV>>, st: SweepSt)
    requires
        wf_slots(s),
        !st.changed,
    ensures
        !sw_slots(kept, s, st).1.changed ==> sw_slots(kept, s, st) == (s, st),
    decreases s,
{
    if s.len() == 0 {
        assert(sw_slots(kept, s, st).0 =~= s);
    } else {
        match s[0] {
            Option::None => {
                lemma_sw_slots_nc(kept, s.drop_first(), st);
                let (rest, st1) = sw_slots(kept, s.drop_first(), st);
                if !st1.changed {
                    assert(seq![Option::<PatV>::None] + s.drop_first() =~= s);
                }
            },
            Option::Some(p) => {
                lemma_sw_pat_nc(kept, p, st);
                let (q, st1) = sw_pat(kept, p, st);
                lemma_sw_slots_size(kept, s.drop_first(), st1);
                let (rest, st2) = sw_slots(kept, s.drop_first(), st1);
                if !st2.changed {
                    assert(!st1.changed);
                    assert(q == p);
                    assert(!(q is Invalid)) by {
                        if p is Invalid {
                            assert(!wf_pat(p));
                        }
                    }
                    lemma_sw_slots_nc(kept, s.drop_first(), st1);
                    assert(rest == s.drop_first());
                    assert(seq![Option::Some(p)] + s.drop_first() =~= s);
                    assert(sw_slots(kept, s, st).0 == s);
                }
            },
        }
    }
}

proof fn lemma_sw_props_nc(kept: Set<u64>, s: Seq<PropV>, st: SweepSt)
    requires
        wf_props(s),
        !st.changed,
    ensures
        !sw_props(kept, s, st).1.changed ==> sw_props(kept, s, st) == (s, st),
    decreases s,
{
    if s.len() == 0 {
        assert(sw_props(kept, s, st).0 =~= s);
    } else {
        lemma_sw_prop_nc(kept, s[0], st);
        let (out0, st1) = sw_prop(kept, s[0], st);
        lemma_sw_props_size(kept, s.drop_first(), st1);
        let (rest, st2) = sw_props(kept, s.drop_first(), st1);
        if !st2.changed {
            assert(!st1.changed);
            lemma_sw_props_nc(kept, s.drop_first(), st1);
            assert(out0 == Option::Some(s[0]));
            assert(seq![s[0]] + s.drop_first() =~= s);
        }
    }
}

proof fn lemma_sw_prop_nc(kept: Set<u64>, p: PropV, st: SweepSt)
    requires
        wf_prop(p),
        !st.changed,
    ensures
        !sw_prop(kept, p, st).1.changed ==> sw_prop(kept, p, st) == (
            Option::Some(p),
            st,
        ),
    decreases p,
{
    match p {
        PropV::KeyValue(inner) => {
            lemma_sw_pat_nc(kept, *inner, st);
            let (q, st1) = sw_pat(kept, *inner, st);
            if !st1.changed {
                assert(q == *inner);
                assert(!(q is Invalid)) by {
                    if *inner is Invalid {
                        assert(!wf_pat(*inner));
                    }
                }
                assert(PropV::KeyValue(Box::new(q)) == p);
            }
        },
        PropV::Assign { .. } => {},
        PropV::Rest(inner) => {
            lemma_sw_pat_nc(kept, *inner, st);
            let (q, st1) = sw_pat(kept, *inner, st);
            if !st1.changed {
                assert(q == *inner);
                assert(!(q is Invalid)) by {
                    if *inner is Invalid {
                        assert(!wf_pat(*inner));
                    }
                }
                assert(PropV::Rest(Box::new(q)) == p);
            }
        },
    }
}

proof fn lemma_sw_decls_nc(kept: Set<u64>, s: Seq<DeclaratorV>, st: SweepSt)
    requires
        wf_decls(s),
        !st.changed,
    ensures
        !sw_decls(kept, s, st).1.changed ==> sw_decls(kept, s, st) == (s, st),
    decreases s,
{
    if s.len() == 0 {
        assert(sw_decls(kept, s, st).0 =~= s);
    } else {
        lemma_sw_pat_nc(kept, s[0].name, st);
        let (q, stq) = sw_pat(kept, s[0].name, st);
        let (out0, st1) = sw_declarator(kept, s[0], st);
        lemma_sw_decls_size(kept, s.drop_first(), st1);
        let (rest, st2) = sw_decls(kept, s.drop_first(), st1);
        if !st2.changed {
            assert(!st1.changed);
            assert(q == s[0].name);
            assert(!(q is Invalid)) by {
                if s[0].name is Invalid {
                    assert(!wf_pat(s[0].name));
                }
            }
            assert(out0 == Option::Some(DeclaratorV { name: s[0].name, init: s[0].init }));
            assert(DeclaratorV { name: s[0].name, init: s[0].init } =~= s[0]);
            lemma_sw_decls_nc(kept, s.drop_first(), st1);
            assert(seq![s[0]] + s.drop_first() =~= s);
        }
    }
}

proof fn lemma_sw_import_specs_full(kept: Set<u64>, st: SweepSt, s: Seq<ImportSpecifierV>)
    requires
        sw_import_specs(kept, st, s).len() == s.len(),
    ensures
        sw_import_specs(kept, st, s) == s,
    decreases s,
{
    if s.len() > 0 {
        let rest = sw_import_specs(kept, st, s.drop_first());
        lemma_sw_import_specs_len(kept, st, s.drop_first());
        assert(sw_live(kept, st, s[0].local.sym));
        lemma_sw_import_specs_full(kept, st, s.drop_first());
        assert(seq![s[0]] + s.drop_first() =~= s);
    }
}

proof fn lemma_sw_export_specs_full(r: Set<Seq<char>>, s: Seq<ExportSpecifierV>)
    requires
        sw_export_specs(r, s).len() == s.len(),
    ensures
        sw_export_specs(r, s) == s,
    decreases s,
{
    if s.len() > 0 {
        let rest = sw_export_specs(r, s.drop_first());
        lemma_sw_export_specs_len(r, s.drop_first());
        assert(export_spec_retained(r, s[0]));
        lemma_sw_export_specs_full(r, s.drop_first());
        assert(seq![s[0]] + s.drop_first() =~= s);
    }
}

proof fn lemma_sw_item_nc(r: Set<Seq<char>>, kept: Set<u64>, it: ItemV, st: SweepSt)
    requires
        wf_item(it),
        !st.changed,
    ensures
        !sw_item(r, kept, it, st).1.changed ==> sw_item(r, kept, it, st) == (
            Option::Some(it),
            st,
        ),
{
    let (out, st1) = sw_item(r, kept, it, st);
    match it {
        ItemV::Import { specifiers, source } => {
            if specifiers.len() > 0 && !st1.changed {
                lemma_sw_import_specs_len(kept, st, specifiers);
                lemma_sw_import_specs_full(kept, st, specifiers);
            }
        },
        ItemV::ExportNamed { specifiers, src } => {
            if !st1.changed {
                lemma_sw_export_specs_len(r, specifiers);
                lemma_sw_export_specs_full(r, specifiers);
            }
        },
        ItemV::ExportDecl { decl } => match decl {
            DeclV::Var { decls } => {
                lemma_sw_decls_nc(kept, decls, st);
            },
            _ => {},
        },
        ItemV::Decl { decl } => match decl {
            DeclV::Var { decls } => {
                lemma_sw_decls_nc(kept, decls, st);
            },
            _ => {},
        },
        _ => {},
    }
}

proof fn lemma_sw_items_nc(r: Set<Seq<char>>, kept: Set<u64>, s: Seq<ItemV>, st: SweepSt)
    requires
        wf_items(s),
        !st.changed,
    ensures
        !sw_items(r, kept, s, st).1.changed ==> sw_items(r, kept, s, st) == (s, st),
    decreases s,
{
    if s.len() == 0 {
        assert(sw_items(r, kept, s, st).0 =~= s);
    } else {
        lemma_sw_item_nc(r, kept, s[0], st);
        let (out0, st1) = sw_item(r, kept, s[0], st);
        lemma_sw_items_size(r, kept, s.drop_first(), st1);
        let (rest, st2) = sw_items(r, kept, s.drop_first(), st1);
        if !st2.changed {
            assert(!st1.changed);
            lemma_sw_items_nc(r, kept, s.drop_first(), st1);
            assert(out0 == Option::Some(s[0]));
            assert(seq![s[0]] + s.drop_first() =~= s);
        }
    }
}

// ----------------------------------------------------------------------------
// A retained region's binders keep it intact: a pattern whose binders are
// all live sweeps to itself.
// ----------------------------------------------------------------------------

proof fn lemma_sw_pat_live_id(kept: Set<u64>, p: PatV, st: SweepSt)
    requires
        wf_pat(p),
        forall|x: u64| pat_binders(p).contains(x) ==> sw_live(kept, st, x),
    ensures
        sw_pat(kept, p, st) == (p, st),
    decreases p,
{
    match p {
        PatV::Ident(i) => {
            assert(pat_binders(p).contains(i.sym));
        },
        PatV::Array(slots) => {
            if slots.len() > 0 {
                lemma_sw_slots_live_id(kept, slots, st);
            }
        },
        PatV::Object(props) => {
            if props.len() > 0 {
                lemma_sw_props_live_id(kept, props, st);
            }
        },
        PatV::Rest(inner) => {
            lemma_sw_pat_live_id(kept, *inner, st);
            let (q, st1) = sw_pat(kept, *inner, st);
            assert(!(q is Invalid)) by {
                if *inner is Invalid {
                    assert(!wf_pat(*inner));
                }
            }
            assert(PatV::Rest(Box::new(q)) == p);
        },
        PatV::Invalid => {
            assert(!wf_pat(p));
        },
    }
}

proof fn lemma_sw_slots_live_id(kept: Set<u64>, s: Seq<Option<PatV>>, st: SweepSt)
    requires
        wf_slots(s),
        forall|x: u64| slots_binders(s).contains(x) ==> sw_live(kept, st, x),
    ensures
        sw_slots(kept, s, st) == (s, st),
    decreases s,
{
    if s.len() == 0 {
        assert(sw_slots(kept, s, st).0 =~= s);
    } else {
        assert(s =~= seq![s[0]] + s.drop_first());
        lemma_slots_binders_cons(s[0], s.drop_first());
        match s[0] {
            Option::None => {
                lemma_sw_slots_live_id(kept, s.drop_first(), st);
                assert(seq![Option::<PatV>::None] + s.drop_first() =~= s);
            },
            Option::Some(p) => {
                lemma_sw_pat_live_id(kept, p, st);
                let (q, st1) = sw_pat(kept, p, st);
                assert(!(q is Invalid)) by {
                    if p is Invalid {
                        assert(!wf_pat(p));
                    }
                }
                lemma_sw_slots_live_id(kept, s.drop_first(), st);
                assert(seq![Option::Some(p)] + s.drop_first() =~= s);
                assert(sw_slots(kept, s, st).0 == s);
            },
        }
    }
}

proof fn lemma_sw_props_live_id(kept: Set<u64>, s: Seq<PropV>, st: SweepSt)
    requires
        wf_props(s),
        forall|x: u64| props_binders(s).contains(x) ==> sw_live(kept, st, x),
    ensures
        sw_props(kept, s, st) == (s, st),
    decreases s,
{
    if s.len() == 0 {
        assert(sw_props(kept, s, st).0 =~= s);
    } else {
        assert(s =~= seq![s[0]] + s.drop_first());
        lemma_props_binders_cons(s[0], s.drop_first());
        lemma_sw_prop_live_id(kept, s[0], st);
        let (out0, st1) = sw_prop(kept, s[0], st);
        lemma_sw_props_live_id(kept, s.drop_first(), st);
        assert(seq![s[0]] + s.drop_first() =~= s);
        assert(sw_props(kept, s, st).0 == s);
    }
}

proof fn lemma_sw_prop_live_id(kept: Set<u64>, p: PropV, st: SweepSt)
    requires
        wf_prop(p),
        forall|x: u64| prop_binders(p).contains(x) ==> sw_live(kept, st, x),
    ensures
        sw_prop(kept, p, st) == (Option::Some(p), st),
    decreases p,
{
    match p {
        PropV::KeyValue(inner) => {
            lemma_sw_pat_live_id(kept, *inner, st);
            let (q, st1) = sw_pat(kept, *inner, st);
            assert(!(q is Invalid)) by {
                if *inner is Invalid {
                    assert(!wf_pat(*inner));
                }
            }
            assert(PropV::KeyValue(Box::new(q)) == p);
        },
        PropV::Assign { key, .. } => {
            assert(prop_binders(p).contains(key.sym));
        },
        PropV::Rest(inner) => {
            lemma_sw_pat_live_id(kept, *inner, st);
            let (q, st1) = sw_pat(kept, *inner, st);
            assert(!(q is Invalid)) by {
                if *inner is Invalid {
                    assert(!wf_pat(*inner));
                }
            }
            assert(PropV::Rest(Box::new(q)) == p);
        },
    }
}

proof fn lemma_sw_decls_live_id(kept: Set<u64>, s: Seq<DeclaratorV>, st: SweepSt)
    requires
        wf_decls(s),
        forall|x: u64| decls_binders(s).contains(x) ==> sw_live(kept, st, x),
    ensures
        sw_decls(kept, s, st) == (s, st),
    decreases s,
{
    if s.len() == 0 {
        assert(sw_decls(kept, s, st).0 =~= s);
    } else {
        assert(s =~= seq![s[0]] + s.drop_first());
        lemma_decls_binders_cons(s[0], s.drop_first());
        lemma_sw_pat_live_id(kept, s[0].name, st);
        let (q, stq) = sw_pat(kept, s[0].name, st);
        assert(!(q is Invalid)) by {
            if s[0].name is Invalid {
                assert(!wf_pat(s[0].name));
            }
        }
        assert(DeclaratorV { name: s[0].name, init: s[0].init } =~= s[0]);
        lemma_sw_decls_live_id(kept, s.drop_first(), st);
        assert(seq![s[0]] + s.drop_first() =~= s);
        assert(sw_decls(kept, s, st).0 == s);
    }
}

// ----------------------------------------------------------------------------
// The kept set only grows across a sweep: every contribution of a retained
// region survives into the swept module.
// ----------------------------------------------------------------------------

proof fn lemma_kept_refs_cons(r: Set<Seq<char>>, x: ItemV, rest: Seq<ItemV>)
    ensures
        kept_refs(r, seq![x] + rest) == item_kept_refs(r, x) + kept_refs(r, rest),
    decreases rest,
{
    if rest.len() == 0 {
        assert(seq![x] + rest =~= seq![x]);
        assert(seq![x].len() == 1);
        assert(seq![x].last() == x);
        assert(seq![x].drop_last() =~= Seq::<ItemV>::empty());
        assert(kept_refs(r, Seq::<ItemV>::empty()) == Set::<u64>::empty());
        assert(kept_refs(r, seq![x] + rest) =~= item_kept_refs(r, x) + kept_refs(r, rest));
    } else {
        lemma_kept_refs_cons(r, x, rest.drop_last());
        assert((seq![x] + rest).drop_last() =~= seq![x] + rest.drop_last());
        assert((seq![x] + rest).last() == rest.last());
        assert(kept_refs(r, seq![x] + rest) =~= item_kept_refs(r, x) + kept_refs(r, rest));
    }
}

proof fn lemma_export_specs_kept_cons(r: Set<Seq<char>>, x: ExportSpecifierV, rest: Seq<ExportSpecifierV>)
    ensures
        export_specs_kept_refs(r, seq![x] + rest) == export_spec_kept_refs(r, x)
            + export_specs_kept_refs(r, rest),
    decreases rest,
{
    if rest.len() == 0 {
        assert(seq![x] + rest =~= seq![x]);
        assert(seq![x].len() == 1);
        assert(seq![x].last() == x);
        assert(seq![x].drop_last() =~= Seq::<ExportSpecifierV>::empty());
        assert(export_specs_kept_refs(r, Seq::<ExportSpecifierV>::empty()) == Set::<u64>::empty());
        assert(export_specs_kept_refs(r, seq![x] + rest) =~= export_spec_kept_refs(r, x)
            + export_specs_kept_refs(r, rest));
    } else {
        lemma_export_specs_kept_cons(r, x, rest.drop_last());
        assert((seq![x] + rest).drop_last() =~= seq![x] + rest.drop_last());
        assert((seq![x] + rest).last() == rest.last());
        assert(export_specs_kept_refs(r, seq![x] + rest) =~= export_spec_kept_refs(r, x)
            + export_specs_kept_refs(r, rest));
    }
}

proof fn lemma_sw_export_specs_kmon(r: Set<Seq<char>>, s: Seq<ExportSpecifierV>)
    ensures
        export_specs_kept_refs(r, s).subset_of(
            export_specs_kept_refs(r, sw_export_specs(r, s)),
        ),
    decreases s,
{
    if s.len() > 0 {
        assert(s =~= seq![s[0]] + s.drop_first());
        lemma_export_specs_kept_cons(r, s[0], s.drop_first());
        lemma_sw_export_specs_kmon(r, s.drop_first());
        let rest = sw_export_specs(r, s.drop_first());
        if export_spec_retained(r, s[0]) {
            lemma_export_specs_kept_cons(r, s[0], rest);
        } else {
            assert(export_spec_kept_refs(r, s[0]) =~= Set::<u64>::empty());
        }
    }
}

proof fn lemma_sw_item_kmon(r: Set<Seq<char>>, kept: Set<u64>, it: ItemV, st: SweepSt)
    requires
        wf_item(it),
        item_kept_refs(r, it).subset_of(kept),
    ensures
        ({
            let (out, st1) = sw_item(r, kept, it, st);
            item_kept_refs(r, it).subset_of(
                match out {
                    Option::None => Set::<u64>::empty(),
                    Option::Some(q) => item_kept_refs(r, q),
                },
            )
        }),
{
    let (out, st1) = sw_item(r, kept, it, st);
    match it {
        ItemV::Import { .. } => {},
        ItemV::ExportNamed { specifiers, src } => {
            lemma_sw_export_specs_kmon(r, specifiers);
            let fspecs = sw_export_specs(r, specifiers);
            if fspecs.len() == 0 {
                assert(export_specs_kept_refs(r, Seq::<ExportSpecifierV>::empty())
                    == Set::<u64>::empty());
                assert(fspecs =~= Seq::<ExportSpecifierV>::empty());
            }
        },
        ItemV::ExportDefaultDecl { .. } => {},
        ItemV::ExportDefaultExpr { .. } => {},
        ItemV::ExportAll { .. } => {},
        ItemV::ExportDecl { decl } => match decl {
            DeclV::Func { .. } => {},
            DeclV::Class { .. } => {},
            DeclV::Var { decls } => {
                if decl_retained(r, decl) {
                    assert(forall|x: u64|
                        decls_binders(decls).contains(x) ==> sw_live(kept, st, x));
                    lemma_sw_decls_live_id(kept, decls, st);
                    assert(sw_decls(kept, decls, st).0 == decls);
                }
            },
        },
        ItemV::Decl { .. } => {},
        ItemV::Stmt { .. } => {},
    }
}

proof fn lemma_sw_items_kmon(r: Set<Seq<char>>, kept: Set<u64>, s: Seq<ItemV>, st: SweepSt)
    requires
        wf_items(s),
        kept_refs(r, s).subset_of(kept),
    ensures
        kept_refs(r, s).subset_of(kept_refs(r, sw_items(r, kept, s, st).0)),
    decreases s,
{
    if s.len() > 0 {
        assert(s =~= seq![s[0]] + s.drop_first());
        lemma_kept_refs_cons(r, s[0], s.drop_first());
        lemma_sw_item_kmon(r, kept, s[0], st);
        let (out0, st1) = sw_item(r, kept, s[0], st);
        lemma_sw_items_kmon(r, kept, s.drop_first(), st1);
        let (rest, st2) = sw_items(r, kept, s.drop_first(), st1);
        match out0 {
            Option::None => {},
            Option::Some(q) => {
                lemma_kept_refs_cons(r, q, rest);
            },
        }
    }
}

// ----------------------------------------------------------------------------
// Idempotence.
// ----------------------------------------------------------------------------

proof fn lemma_drive_empty_export(r: Set<Seq<char>>, kept: Set<u64>)
    ensures
        drive(r, kept, seq![empty_export_item()]) == seq![empty_export_item()],
{
    let s = seq![empty_export_item()];
    let st0 = SweepSt { other: other_refs(r, s), changed: false };
    let kept1 = kept + kept_refs(r, s);
    assert(s.len() == 1);
    assert(s[0] == empty_export_item());
    assert(s.drop_first() =~= Seq::<ItemV>::empty());
    let specs = empty_export_item()->ExportNamed_specifiers;
    assert(specs =~= Seq::<ExportSpecifierV>::empty());
    assert(sw_export_specs(r, specs).len() == 0);
    let (out0, st1) = sw_item(r, kept1, s[0], st0);
    assert(out0 is None);
    assert(st1 == st0);
    assert(sw_items(r, kept1, Seq::<ItemV>::empty(), st1).0 =~= Seq::<ItemV>::empty());
    assert(sw_items(r, kept1, s, st0).0 =~= Seq::<ItemV>::empty());
    assert(!sw_items(r, kept1, s, st0).1.changed);
}

proof fn lemma_drive_stable(r: Set<Seq<char>>, kept: Set<u64>, s: Seq<ItemV>)
    requires
        wf_items(s),
        kept.subset_of(kept_refs(r, s)),
    ensures
        drive(r, Set::<u64>::empty(), drive(r, kept, s)) == drive(r, kept, s),
    decreases module_size(s),
{
    let kept1 = kept + kept_refs(r, s);
    assert(kept1 =~= kept_refs(r, s));
    let st0 = SweepSt { other: other_refs(r, s), changed: false };
    let (out_items, st1) = sw_items(r, kept1, s, st0);
    lemma_sw_module_size(r, kept1, s, st0);
    if st1.changed {
        if out_items.len() == 0 {
            lemma_drive_empty_export(r, kept1);
            lemma_drive_empty_export(r, Set::<u64>::empty());
        } else {
            lemma_sw_items_wf(r, kept1, s, st0);
            lemma_sw_items_kmon(r, kept1, s, st0);
            lemma_drive_stable(r, kept1, out_items);
        }
    } else {
        if out_items.len() == 0 {
            lemma_drive_empty_export(r, Set::<u64>::empty());
        } else {
            lemma_sw_items_nc(r, kept1, s, st0);
            assert(out_items == s);
            assert(st1 == st0);
            assert(drive(r, kept, s) == s);
            let keptp = Set::<u64>::empty() + kept_refs(r, s);
            assert(keptp =~= kept_refs(r, s));
            assert(keptp == kept1);
            assert(sw_items(r, keptp, s, st0) == (s, st0));
            assert(drive(r, Set::<u64>::empty(), s) == s);
        }
    }
}

// ----------------------------------------------------------------------------
// Minimality pressure: a plain declaration that survives a sweep was live.
// ----------------------------------------------------------------------------

/// The symbol a plain (non-exported) function or class declaration binds,
/// if the item is one.
pub open spec fn plain_decl_sym(it: ItemV) -> Option<u64> {
    match it {
        ItemV::Decl { decl } => match decl {
            DeclV::Func { ident, .. } => Option::Some(ident.sym),
            DeclV::Class { ident, .. } => Option::Some(ident.sym),
            DeclV::Var { .. } => Option::None,
        },
        _ => Option::None,
    }
}

proof fn lemma_sw_items_plain_live(r: Set<Seq<char>>, kept: Set<u64>, s: Seq<ItemV>, st: SweepSt)
    ensures
        ({
            let (out, st2) = sw_items(r, kept, s, st);
            forall|i: int|
                0 <= i < out.len() && (#[trigger] plain_decl_sym(out[i])) is Some
                    ==> kept.contains(plain_decl_sym(out[i])->0) || st2.other.contains(
                    plain_decl_sym(out[i])->0,
                )
        }),
    decreases s,
{
    if s.len() > 0 {
        let (out0, st1) = sw_item(r, kept, s[0], st);
        let (rest, st2) = sw_items(r, kept, s.drop_first(), st1);
        let out = sw_items(r, kept, s, st).0;
        crate::laws::lemma_sw_item_other_mono(r, kept, s[0], st);
        lemma_sw_items_other_mono(r, kept, s.drop_first(), st1);
        lemma_sw_items_plain_live(r, kept, s.drop_first(), st1);
        match out0 {
            Option::None => {},
            Option::Some(q) => {
                assert forall|i: int|
                    0 <= i < out.len() && (#[trigger] plain_decl_sym(out[i])) is Some
                        implies kept.contains(plain_decl_sym(out[i])->0) || st2.other.contains(
                        plain_decl_sym(out[i])->0,
                    ) by {
                    if i == 0 {
                        assert(out[0] == q);
                    } else {
                        assert(out[i] == rest[i - 1]);
                    }
                }
            },
        }
    }
}

proof fn lemma_sw_items_other_mono(r: Set<Seq<char>>, kept: Set<u64>, s: Seq<ItemV>, st: SweepSt)
    ensures
        st.other.subset_of(sw_items(r, kept, s, st).1.other),
    decreases s,
{
    if s.len() > 0 {
        crate::laws::lemma_sw_item_other_mono(r, kept, s[0], st);
        let (out0, st1) = sw_item(r, kept, s[0], st);
        lemma_sw_items_other_mono(r, kept, s.drop_first(), st1);
    }
}

/// Minimality pressure: every plain function or class declaration still
/// present after a run is referenced by the run's result — nothing
/// unreferenced at the top level is left behind.
pub proof fn lemma_minimality_pressure(r: Set<Seq<char>>, kept: Set<u64>, s: Seq<ItemV>)
    requires
        wf_items(s),
        kept.subset_of(kept_refs(r, s)),
    ensures
        ({
            let out = drive(r, kept, s);
            forall|i: int|
                0 <= i < out.len() && (#[trigger] plain_decl_sym(out[i])) is Some
                    ==> (kept_refs(r, out) + other_refs(r, out)).contains(
                    plain_decl_sym(out[i])->0,
                )
        }),
    decreases module_size(s),
{
    let kept1 = kept + kept_refs(r, s);
    assert(kept1 =~= kept_refs(r, s));
    let st0 = SweepSt { other: other_refs(r, s), changed: false };
    let (out_items, st1) = sw_items(r, kept1, s, st0);
    lemma_sw_module_size(r, kept1, s, st0);
    if st1.changed {
        if out_items.len() == 0 {
            lemma_drive_empty_export(r, kept1);
        } else {
            lemma_sw_items_wf(r, kept1, s, st0);
            lemma_sw_items_kmon(r, kept1, s, st0);
            lemma_minimality_pressure(r, kept1, out_items);
        }
    } else {
        if out_items.len() == 0 {
            lemma_drive_empty_export(r, kept1);
        } else {
            lemma_sw_items_nc(r, kept1, s, st0);
            assert(out_items == s);
            assert(st1 == st0);
            lemma_sw_items_plain_live(r, kept1, s, st0);
            assert(drive(r, kept, s) == s);
        }
    }
}

// ----------------------------------------------------------------------------
// Reference edges: a binding supports every symbol that its declaration's
// body, initializer or default value references.
// ----------------------------------------------------------------------------

/// Whether the pattern holds a shorthand binding `y` whose default value
/// references `x`, at any depth.
pub open spec fn pat_supports(p: PatV, y: u64, x: u64) -> bool
    decreases p,
{
    match p {
        PatV::Ident(_) => false,
        PatV::Array(slots) => slots_support(slots, y, x),
        PatV::Object(props) => props_support(props, y, x),
        PatV::Rest(inner) => pat_supports(*inner, y, x),
        PatV::Invalid => false,
    }
}

pub open spec fn slots_support(s: Seq<Option<PatV>>, y: u64, x: u64) -> bool
    decreases s,
{
    exists|j: int| 0 <= j < s.len() && slot_supports(#[trigger] s[j], y, x)
}

pub open spec fn props_support(s: Seq<PropV>, y: u64, x: u64) -> bool
    decreases s,
{
    exists|j: int| 0 <= j < s.len() && prop_supports(#[trigger] s[j], y, x)
}

pub open spec fn decls_support(s: Seq<DeclaratorV>, y: u64, x: u64) -> bool
    decreases s,
{
    exists|j: int| 0 <= j < s.len() && declarator_supports(#[trigger] s[j], y, x)
}

pub open spec fn slot_supports(s: Option<PatV>, y: u64, x: u64) -> bool
    decreases s,
{
    match s {
        Option::None => false,
        Option::Some(p) => pat_supports(p, y, x),
    }
}

pub open spec fn prop_supports(p: PropV, y: u64, x: u64) -> bool
    decreases p,
{
    match p {
        PropV::KeyValue(inner) => pat_supports(*inner, y, x),
        PropV::Assign { key, default } => key.sym == y && opt_expr_refs(default).contains(x),
        PropV::Rest(inner) => pat_supports(*inner, y, x),
    }
}

/// Whether the declarator binds `y` and its initializer references `x`, or
/// one of its shorthand defaults does.
pub open spec fn declarator_supports(d: DeclaratorV, y: u64, x: u64) -> bool {
    (pat_binders(d.name).contains(y) && opt_expr_refs(d.init).contains(x)) || pat_supports(
        d.name,
        y,
        x,
    )
}

/// Whether the declaration binds `y` in a position whose body, initializer
/// or default references `x`.
pub open spec fn decl_supports(d: DeclV, y: u64, x: u64) -> bool {
    match d {
        DeclV::Func { ident, body } => ident.sym == y && idset(body.refs).contains(x),
        DeclV::Class { ident, body } => ident.sym == y && idset(body.refs).contains(x),
        DeclV::Var { decls } => decls_support(decls, y, x),
    }
}

pub open spec fn item_supports(it: ItemV, y: u64, x: u64) -> bool {
    match it {
        ItemV::ExportDecl { decl } => decl_supports(decl, y, x),
        ItemV::Decl { decl } => decl_supports(decl, y, x),
        _ => false,
    }
}

/// Whether some declaration of the module binds `y` and references `x` from
/// the position that binds `y`.
pub open spec fn module_supports(s: Seq<ItemV>, y: u64, x: u64) -> bool {
    exists|i: int| 0 <= i < s.len() && item_supports(#[trigger] s[i], y, x)
}

// ----------------------------------------------------------------------------
// Every edge's target is recorded by the analyzer.
// ----------------------------------------------------------------------------

proof fn lemma_pat_supports_refs(p: PatV, y: u64, x: u64)
    requires
        pat_supports(p, y, x),
    ensures
        pat_refs(p).contains(x),
    decreases p,
{
    match p {
        PatV::Ident(_) => {},
        PatV::Array(slots) => {
            lemma_slots_supports_refs(slots, y, x);
        },
        PatV::Object(props) => {
            lemma_props_supports_refs(props, y, x);
        },
        PatV::Rest(inner) => {
            lemma_pat_supports_refs(*inner, y, x);
        },
        PatV::Invalid => {},
    }
}

proof fn lemma_slots_supports_refs(s: Seq<Option<PatV>>, y: u64, x: u64)
    requires
        slots_support(s, y, x),
    ensures
        slots_refs(s).contains(x),
    decreases s,
{
    let j = choose|j: int| 0 <= j < s.len() && slot_supports(#[trigger] s[j], y, x);
    if j == 0 {
        match s[0] {
            Option::None => {},
            Option::Some(q) => {
                lemma_pat_supports_refs(q, y, x);
            },
        }
        lemma_slots_refs_member(s, 0);
    } else {
        assert(s.drop_first()[j - 1] == s[j]);
        assert(slots_support(s.drop_first(), y, x));
        lemma_slots_supports_refs(s.drop_first(), y, x);
        assert(s =~= seq![s[0]] + s.drop_first());
        lemma_slots_refs_cons(s[0], s.drop_first());
    }
}

proof fn lemma_props_supports_refs(s: Seq<PropV>, y: u64, x: u64)
    requires
        props_support(s, y, x),
    ensures
        props_refs(s).contains(x),
    decreases s,
{
    let j = choose|j: int| 0 <= j < s.len() && prop_supports(#[trigger] s[j], y, x);
    if j == 0 {
        match s[0] {
            PropV::KeyValue(inner) => {
                lemma_pat_supports_refs(*inner, y, x);
            },
            PropV::Assign { .. } => {},
            PropV::Rest(inner) => {
                lemma_pat_supports_refs(*inner, y, x);
            },
        }
        lemma_props_refs_member(s, 0);
    } else {
        assert(s.drop_first()[j - 1] == s[j]);
        assert(props_support(s.drop_first(), y, x));
        lemma_props_supports_refs(s.drop_first(), y, x);
        assert(s =~= seq![s[0]] + s.drop_first());
        lemma_props_refs_cons(s[0], s.drop_first());
    }
}

proof fn lemma_slots_refs_cons(h: Option<PatV>, rest: Seq<Option<PatV>>)
    ensures
        slots_refs(seq![h] + rest) == slot_refs(h) + slots_refs(rest),
    decreases rest,
{
    if rest.len() == 0 {
        assert(seq![h] + rest =~= seq![h]);
        assert(seq![h].len() == 1);
        assert(seq![h].last() == h);
        assert(seq![h].drop_last() =~= Seq::<Option<PatV>>::empty());
        assert(slots_refs(Seq::<Option<PatV>>::empty()) == Set::<u64>::empty());
        assert(slots_refs(seq![h] + rest) =~= slot_refs(h) + slots_refs(rest));
    } else {
        lemma_slots_refs_cons(h, rest.drop_last());
        assert((seq![h] + rest).drop_last() =~= seq![h] + rest.drop_last());
        assert((seq![h] + rest).last() == rest.last());
        assert(slots_refs(seq![h] + rest) =~= slot_refs(h) + slots_refs(rest));
    }
}

proof fn lemma_props_refs_cons(h: PropV, rest: Seq<PropV>)
    ensures
        props_refs(seq![h] + rest) == prop_refs(h) + props_refs(rest),
    decreases rest,
{
    if rest.len() == 0 {
        assert(seq![h] + rest =~= seq![h]);
        assert(seq![h].len() == 1);
        assert(seq![h].last() == h);
        assert(seq![h].drop_last() =~= Seq::<PropV>::empty());
        assert(props_refs(Seq::<PropV>::empty()) == Set::<u64>::empty());
        assert(props_refs(seq![h] + rest) =~= prop_refs(h) + props_refs(rest));
    } else {
        lemma_props_refs_cons(h, rest.drop_last());
        assert((seq![h] + rest).drop_last() =~= seq![h] + rest.drop_last());
        assert((seq![h] + rest).last() == rest.last());
        assert(props_refs(seq![h] + rest) =~= prop_refs(h) + props_refs(rest));
    }
}

proof fn lemma_slots_refs_member(s: Seq<Option<PatV>>, j: int)
    requires
        0 <= j < s.len(),
    ensures
        slot_refs(s[j]).subset_of(slots_refs(s)),
    decreases s,
{
    if s.len() > 0 {
        if j < s.len() - 1 {
            lemma_slots_refs_member(s.drop_last(), j);
            assert(s.drop_last()[j] == s[j]);
        } else {
            assert(s.last() == s[j]);
        }
    }
}

proof fn lemma_props_refs_member(s: Seq<PropV>, j: int)
    requires
        0 <= j < s.len(),
    ensures
        prop_refs(s[j]).subset_of(props_refs(s)),
    decreases s,
{
    if s.len() > 0 {
        if j < s.len() - 1 {
            lemma_props_refs_member(s.drop_last(), j);
            assert(s.drop_last()[j] == s[j]);
        } else {
            assert(s.last() == s[j]);
        }
    }
}

proof fn lemma_decls_refs_member(s: Seq<DeclaratorV>, j: int)
    requires
        0 <= j < s.len(),
    ensures
        declarator_refs(s[j]).subset_of(decls_refs(s)),
    decreases s,
{
    if s.len() > 0 {
        if j < s.len() - 1 {
            lemma_decls_refs_member(s.drop_last(), j);
            assert(s.drop_last()[j] == s[j]);
        } else {
            assert(s.last() == s[j]);
        }
    }
}

proof fn lemma_item_refs_subset(r: Set<Seq<char>>, s: Seq<ItemV>, i: int)
    requires
        0 <= i < s.len(),
    ensures
        item_other_refs(r, s[i]).subset_of(kept_refs(r, s) + other_refs(r, s)),
        item_kept_refs(r, s[i]).subset_of(kept_refs(r, s) + other_refs(r, s)),
    decreases s,
{
    if s.len() > 0 {
        if i < s.len() - 1 {
            lemma_item_refs_subset(r, s.drop_last(), i);
            assert(s.drop_last()[i] == s[i]);
        } else {
            assert(s.last() == s[i]);
        }
    }
}

/// An edge's target is in one of the two reference sets the analyzer
/// produces: the module's present declarations keep their references
/// recorded.
proof fn lemma_supports_analyzed(r: Set<Seq<char>>, s: Seq<ItemV>, y: u64, x: u64)
    requires
        module_supports(s, y, x),
    ensures
        (kept_refs(r, s) + other_refs(r, s)).contains(x),
{
    let i = choose|i: int| 0 <= i < s.len() && item_supports(#[trigger] s[i], y, x);
    lemma_item_refs_subset(r, s, i);
    match s[i] {
        ItemV::ExportDecl { decl } => {
            lemma_decl_supports_refs(decl, y, x);
            if decl_retained(r, decl) {
                assert(item_kept_refs(r, s[i]).contains(x));
            } else {
                assert(item_other_refs(r, s[i]).contains(x));
            }
        },
        ItemV::Decl { decl } => {
            lemma_decl_supports_refs(decl, y, x);
            assert(item_other_refs(r, s[i]).contains(x));
        },
        _ => {},
    }
}

proof fn lemma_decl_supports_refs(d: DeclV, y: u64, x: u64)
    requires
        decl_supports(d, y, x),
    ensures
        decl_refs(d).contains(x),
{
    match d {
        DeclV::Func { .. } => {},
        DeclV::Class { .. } => {},
        DeclV::Var { decls } => {
            let j = choose|j: int|
                0 <= j < decls.len() && declarator_supports(#[trigger] decls[j], y, x);
            if pat_supports(decls[j].name, y, x) {
                lemma_pat_supports_refs(decls[j].name, y, x);
            }
            lemma_decls_refs_member(decls, j);
        },
    }
}

// ----------------------------------------------------------------------------
// An edge whose source binding is live survives the sweep.
// ----------------------------------------------------------------------------

proof fn lemma_sw_pat_keeps_support(kept: Set<u64>, p: PatV, st: SweepSt, y: u64, x: u64)
    requires
        sw_live(kept, st, y),
        pat_supports(p, y, x),
    ensures
        pat_supports(sw_pat(kept, p, st).0, y, x),
    decreases p,
{
    match p {
        PatV::Ident(_) => {},
        PatV::Array(slots) => {
            if slots.len() > 0 {
                lemma_sw_slots_keeps_support(kept, slots, st, y, x);
                let (out, st1) = sw_slots(kept, slots, st);
                assert(out.len() > 0);
            }
        },
        PatV::Object(props) => {
            if props.len() > 0 {
                lemma_sw_props_keeps_support(kept, props, st, y, x);
                let (out, st1) = sw_props(kept, props, st);
                assert(out.len() > 0);
            }
        },
        PatV::Rest(inner) => {
            lemma_sw_pat_keeps_support(kept, *inner, st, y, x);
            let (q, st1) = sw_pat(kept, *inner, st);
            assert(!(q is Invalid));
        },
        PatV::Invalid => {},
    }
}

proof fn lemma_sw_slots_keeps_support(
    kept: Set<u64>,
    s: Seq<Option<PatV>>,
    st: SweepSt,
    y: u64,
    x: u64,
)
    requires
        sw_live(kept, st, y),
        slots_support(s, y, x),
    ensures
        slots_support(sw_slots(kept, s, st).0, y, x),
    decreases s,
{
    let j = choose|j: int| 0 <= j < s.len() && slot_supports(#[trigger] s[j], y, x);
    let out = sw_slots(kept, s, st).0;
    match s[0] {
        Option::None => {
            let (rest, st1) = sw_slots(kept, s.drop_first(), st);
            assert(s.drop_first()[j - 1] == s[j]);
            lemma_sw_slots_keeps_support(kept, s.drop_first(), st, y, x);
            let j2 = choose|j2: int|
                0 <= j2 < rest.len() && slot_supports(#[trigger] rest[j2], y, x);
            assert(out[j2 + 1] == rest[j2]);
        },
        Option::Some(p) => {
            let (q, st1) = sw_pat(kept, p, st);
            let (rest, st2) = sw_slots(kept, s.drop_first(), st1);
            lemma_sw_pat_other_mono_local(kept, p, st);
            if j == 0 {
                lemma_sw_pat_keeps_support(kept, p, st, y, x);
                assert(!(q is Invalid));
                assert(out[0] == Option::Some(q));
                assert(slot_supports(out[0], y, x));
            } else {
                assert(s.drop_first()[j - 1] == s[j]);
                lemma_sw_slots_keeps_support(kept, s.drop_first(), st1, y, x);
                let j2 = choose|j2: int|
                    0 <= j2 < rest.len() && slot_supports(#[trigger] rest[j2], y, x);
                if q is Invalid {
                    assert(out[j2] == rest[j2]);
                } else {
                    assert(out[j2 + 1] == rest[j2]);
                }
            }
        },
    }
}

proof fn lemma_sw_props_keeps_support(kept: Set<u64>, s: Seq<PropV>, st: SweepSt, y: u64, x: u64)
    requires
        sw_live(kept, st, y),
        props_support(s, y, x),
    ensures
        props_support(sw_props(kept, s, st).0, y, x),
    decreases s,
{
    let j = choose|j: int| 0 <= j < s.len() && prop_supports(#[trigger] s[j], y, x);
    let out = sw_props(kept, s, st).0;
    let (out0, st1) = sw_prop(kept, s[0], st);
    let (rest, st2) = sw_props(kept, s.drop_first(), st1);
    lemma_sw_prop_other_mono_local(kept, s[0], st);
    if j == 0 {
        lemma_sw_prop_keeps_support(kept, s[0], st, y, x);
        assert(out[0] == out0->0);
        assert(prop_supports(out[0], y, x));
    } else {
        assert(s.drop_first()[j - 1] == s[j]);
        lemma_sw_props_keeps_support(kept, s.drop_first(), st1, y, x);
        let j2 = choose|j2: int| 0 <= j2 < rest.len() && prop_supports(#[trigger] rest[j2], y, x);
        match out0 {
            Option::None => {
                assert(out[j2] == rest[j2]);
            },
            Option::Some(q) => {
                assert(out[j2 + 1] == rest[j2]);
            },
        }
    }
}

proof fn lemma_sw_prop_keeps_support(kept: Set<u64>, p: PropV, st: SweepSt, y: u64, x: u64)
    requires
        sw_live(kept, st, y),
        prop_supports(p, y, x),
    ensures
        ({
            let (out, st1) = sw_prop(kept, p, st);
            out is Some && prop_supports(out->0, y, x)
        }),
    decreases p,
{
    match p {
        PropV::KeyValue(inner) => {
            lemma_sw_pat_keeps_support(kept, *inner, st, y, x);
            let (q, st1) = sw_pat(kept, *inner, st);
            assert(!(q is Invalid));
        },
        PropV::Assign { key, .. } => {},
        PropV::Rest(inner) => {
            lemma_sw_pat_keeps_support(kept, *inner, st, y, x);
            let (q, st1) = sw_pat(kept, *inner, st);
            assert(!(q is Invalid));
        },
    }
}

proof fn lemma_sw_pat_other_mono_local(kept: Set<u64>, p: PatV, st: SweepSt)
    ensures
        st.other.subset_of(sw_pat(kept, p, st).1.other),
    decreases p,
{
    match p {
        PatV::Ident(_) => {},
        PatV::Array(slots) => {
            if slots.len() > 0 {
                lemma_sw_slots_other_mono_local(kept, slots, st);
            }
        },
        PatV::Object(props) => {
            if props.len() > 0 {
                lemma_sw_props_other_mono_local(kept, props, st);
            }
        },
        PatV::Rest(inner) => {
            lemma_sw_pat_other_mono_local(kept, *inner, st);
        },
        PatV::Invalid => {},
    }
}

proof fn lemma_sw_slots_other_mono_local(kept: Set<u64>, s: Seq<Option<PatV>>, st: SweepSt)
    ensures
        st.other.subset_of(sw_slots(kept, s, st).1.other),
    decreases s,
{
    if s.len() > 0 {
        match s[0] {
            Option::None => {
                lemma_sw_slots_other_mono_local(kept, s.drop_first(), st);
            },
            Option::Some(p) => {
                lemma_sw_pat_other_mono_local(kept, p, st);
                let (q, st1) = sw_pat(kept, p, st);
                lemma_sw_slots_other_mono_local(kept, s.drop_first(), st1);
            },
        }
    }
}

proof fn lemma_sw_props_other_mono_local(kept: Set<u64>, s: Seq<PropV>, st: SweepSt)
    ensures
        st.other.subset_of(sw_props(kept, s, st).1.other),
    decreases s,
{
    if s.len() > 0 {
        lemma_sw_prop_other_mono_local(kept, s[0], st);
        let (out0, st1) = sw_prop(kept, s[0], st);
        lemma_sw_props_other_mono_local(kept, s.drop_first(), st1);
    }
}

proof fn lemma_sw_prop_other_mono_local(kept: Set<u64>, p: PropV, st: SweepSt)
    ensures
        st.other.subset_of(sw_prop(kept, p, st).1.other),
    decreases p,
{
    match p {
        PropV::KeyValue(inner) => {
            lemma_sw_pat_other_mono_local(kept, *inner, st);
        },
        PropV::Assign { .. } => {},
        PropV::Rest(inner) => {
            lemma_sw_pat_other_mono_local(kept, *inner, st);
        },
    }
}

proof fn lemma_sw_declarator_keeps_support(
    kept: Set<u64>,
    d: DeclaratorV,
    st: SweepSt,
    y: u64,
    x: u64,
)
    requires
        sw_live(kept, st, y),
        declarator_supports(d, y, x),
    ensures
        ({
            let (out, st1) = sw_declarator(kept, d, st);
            out is Some && declarator_supports(out->0, y, x)
        }),
{
    let (q, stq) = sw_pat(kept, d.name, st);
    if pat_binders(d.name).contains(y) && opt_expr_refs(d.init).contains(x) {
        crate::laws::lemma_sw_pat_keeps_binder(kept, d.name, st, y);
        assert(!(q is Invalid)) by {
            if q is Invalid {
                assert(pat_binders(q) =~= Set::<u64>::empty());
            }
        }
    } else {
        lemma_sw_pat_keeps_support(kept, d.name, st, y, x);
        assert(!(q is Invalid));
    }
}

proof fn lemma_sw_decls_keeps_support(
    kept: Set<u64>,
    s: Seq<DeclaratorV>,
    st: SweepSt,
    y: u64,
    x: u64,
)
    requires
        sw_live(kept, st, y),
        decls_support(s, y, x),
    ensures
        decls_support(sw_decls(kept, s, st).0, y, x),
    decreases s,
{
    let j = choose|j: int| 0 <= j < s.len() && declarator_supports(#[trigger] s[j], y, x);
    let out = sw_decls(kept, s, st).0;
    let (out0, st1) = sw_declarator(kept, s[0], st);
    let (rest, st2) = sw_decls(kept, s.drop_first(), st1);
    lemma_sw_pat_other_mono_local(kept, s[0].name, st);
    if j == 0 {
        lemma_sw_declarator_keeps_support(kept, s[0], st, y, x);
        assert(out[0] == out0->0);
        assert(declarator_supports(out[0], y, x));
    } else {
        assert(s.drop_first()[j - 1] == s[j]);
        lemma_sw_decls_keeps_support(kept, s.drop_first(), st1, y, x);
        let j2 = choose|j2: int|
            0 <= j2 < rest.len() && declarator_supports(#[trigger] rest[j2], y, x);
        match out0 {
            Option::None => {
                assert(out[j2] == rest[j2]);
            },
            Option::Some(q) => {
                assert(out[j2 + 1] == rest[j2]);
            },
        }
    }
}

proof fn lemma_sw_item_keeps_support(
    r: Set<Seq<char>>,
    kept: Set<u64>,
    it: ItemV,
    st: SweepSt,
    y: u64,
    x: u64,
)
    requires
        sw_live(kept, st, y),
        item_supports(it, y, x),
    ensures
        ({
            let (out, st1) = sw_item(r, kept, it, st);
            out is Some && item_supports(out->0, y, x)
        }),
{
    match it {
        ItemV::ExportDecl { decl } => match decl {
            DeclV::Func { .. } => {},
            DeclV::Class { .. } => {},
            DeclV::Var { decls } => {
                lemma_sw_decls_keeps_support(kept, decls, st, y, x);
                let (out, st1) = sw_decls(kept, decls, st);
                assert(out.len() > 0);
            },
        },
        ItemV::Decl { decl } => match decl {
            DeclV::Func { .. } => {},
            DeclV::Class { .. } => {},
            DeclV::Var { decls } => {
                lemma_sw_decls_keeps_support(kept, decls, st, y, x);
                let (out, st1) = sw_decls(kept, decls, st);
                assert(out.len() > 0);
            },
        },
        _ => {},
    }
}

proof fn lemma_sw_items_keeps_support(
    r: Set<Seq<char>>,
    kept: Set<u64>,
    s: Seq<ItemV>,
    st: SweepSt,
    y: u64,
    x: u64,
)
    requires
        sw_live(kept, st, y),
        module_supports(s, y, x),
    ensures
        module_supports(sw_items(r, kept, s, st).0, y, x),
    decreases s,
{
    let j = choose|j: int| 0 <= j < s.len() && item_supports(#[trigger] s[j], y, x);
    let out = sw_items(r, kept, s, st).0;
    let (out0, st1) = sw_item(r, kept, s[0], st);
    let (rest, st2) = sw_items(r, kept, s.drop_first(), st1);
    crate::laws::lemma_sw_item_other_mono(r, kept, s[0], st);
    if j == 0 {
        lemma_sw_item_keeps_support(r, kept, s[0], st, y, x);
        assert(out[0] == out0->0);
        assert(item_supports(out[0], y, x));
    } else {
        assert(s.drop_first()[j - 1] == s[j]);
        lemma_sw_items_keeps_support(r, kept, s.drop_first(), st1, y, x);
        let j2 = choose|j2: int| 0 <= j2 < rest.len() && item_supports(#[trigger] rest[j2], y, x);
        match out0 {
            Option::None => {
                assert(out[j2] == rest[j2]);
            },
            Option::Some(q) => {
                assert(out[j2 + 1] == rest[j2]);
            },
        }
    }
}

// ----------------------------------------------------------------------------
// Retention soundness, transitive part.
// ----------------------------------------------------------------------------

/// A set of symbols is support-closed when each of its members has a
/// binding in the module and is referenced either by a retained region or
/// from the binding position of another member: exactly the symbols
/// transitively reachable from the retained exports through reference
/// chains.
pub open spec fn support_closed(r: Set<Seq<char>>, s: Seq<ItemV>, reach: Set<u64>) -> bool {
    forall|x: u64| #[trigger]
        reach.contains(x) ==> crate::laws::module_binders(s).contains(x) && (kept_refs(
            r,
            s,
        ).contains(x) || exists|y: u64| #[trigger] reach.contains(y) && module_supports(s, y, x))
}

proof fn lemma_closed_all_live(r: Set<Seq<char>>, kept: Set<u64>, s: Seq<ItemV>, reach: Set<u64>)
    requires
        support_closed(r, s, reach),
        kept_refs(r, s).subset_of(kept),
    ensures
        forall|x: u64| #[trigger]
            reach.contains(x) ==> sw_live(
                kept,
                SweepSt { other: other_refs(r, s), changed: false },
                x,
            ),
{
    let st0 = SweepSt { other: other_refs(r, s), changed: false };
    assert forall|x: u64| #[trigger] reach.contains(x) implies sw_live(kept, st0, x) by {
        if !kept_refs(r, s).contains(x) {
            let y = choose|y: u64| #[trigger] reach.contains(y) && module_supports(s, y, x);
            lemma_supports_analyzed(r, s, y, x);
        }
    }
}

proof fn lemma_closed_preserved(r: Set<Seq<char>>, kept: Set<u64>, s: Seq<ItemV>, reach: Set<u64>)
    requires
        support_closed(r, s, reach),
        kept_refs(r, s).subset_of(kept),
        wf_items(s),
    ensures
        ({
            let st0 = SweepSt { other: other_refs(r, s), changed: false };
            support_closed(r, sw_items(r, kept, s, st0).0, reach)
        }),
{
    let st0 = SweepSt { other: other_refs(r, s), changed: false };
    let out = sw_items(r, kept, s, st0).0;
    lemma_closed_all_live(r, kept, s, reach);
    lemma_sw_items_kmon(r, kept, s, st0);
    assert forall|x: u64| #[trigger]
        reach.contains(x) implies crate::laws::module_binders(out).contains(x) && (kept_refs(
        r,
        out,
    ).contains(x) || exists|y: u64| #[trigger] reach.contains(y) && module_supports(out, y, x)) by {
        crate::laws::lemma_sw_items_keeps_binder(r, kept, s, st0, x);
        if kept_refs(r, s).contains(x) {
            assert(kept_refs(r, out).contains(x));
        } else {
            let y = choose|y: u64| #[trigger] reach.contains(y) && module_supports(s, y, x);
            lemma_sw_items_keeps_support(r, kept, s, st0, y, x);
            assert(reach.contains(y) && module_supports(out, y, x));
        }
    }
}

/// Retention soundness, transitive part: every symbol transitively
/// reachable from the retained exports through reference chains — any
/// member of a support-closed set — keeps its binding in the result of the
/// run.
pub proof fn lemma_reachable_bindings_present(
    r: Set<Seq<char>>,
    kept: Set<u64>,
    s: Seq<ItemV>,
    reach: Set<u64>,
)
    requires
        wf_items(s),
        kept.subset_of(kept_refs(r, s)),
        support_closed(r, s, reach),
    ensures
        forall|x: u64| #[trigger]
            reach.contains(x) ==> crate::laws::module_binders(drive(r, kept, s)).contains(x),
    decreases module_size(s),
{
    let kept1 = kept + kept_refs(r, s);
    assert(kept1 =~= kept_refs(r, s));
    let st0 = SweepSt { other: other_refs(r, s), changed: false };
    let (out_items, st1) = sw_items(r, kept1, s, st0);
    lemma_sw_module_size(r, kept1, s, st0);
    lemma_closed_all_live(r, kept1, s, reach);
    lemma_closed_preserved(r, kept1, s, reach);
    lemma_sw_items_kmon(r, kept1, s, st0);
    assert forall|x: u64| #[trigger] reach.contains(x) implies crate::laws::module_binders(
        out_items,
    ).contains(x) by {
        crate::laws::lemma_sw_items_keeps_binder(r, kept1, s, st0, x);
    }
    if st1.changed {
        if out_items.len() == 0 {
            assert forall|x: u64| #[trigger] reach.contains(x) implies false by {
                assert(crate::laws::module_binders(out_items) =~= Set::<u64>::empty());
            }
            lemma_drive_empty_export(r, kept1);
        } else {
            lemma_sw_items_wf(r, kept1, s, st0);
            lemma_reachable_bindings_present(r, kept1, out_items, reach);
        }
    } else {
        if out_items.len() == 0 {
            assert forall|x: u64| #[trigger] reach.contains(x) implies false by {
                assert(crate::laws::module_binders(out_items) =~= Set::<u64>::empty());
            }
            lemma_drive_empty_export(r, kept1);
        } else {
            lemma_sw_items_nc(r, kept1, s, st0);
            assert(out_items == s);
        }
    }
}

/// Retention soundness for references: a binding that a retained region
/// references directly keeps its binding site through the whole run, not
/// just through one sweep.
pub proof fn lemma_kept_reference_binding_present(
    r: Set<Seq<char>>,
    kept: Set<u64>,
    s: Seq<ItemV>,
    x: u64,
)
    requires
        wf_items(s),
        kept.subset_of(kept_refs(r, s)),
        kept_refs(r, s).contains(x),
        crate::laws::module_binders(s).contains(x),
    ensures
        crate::laws::module_binders(drive(r, kept, s)).contains(x),
    decreases module_size(s),
{
    let kept1 = kept + kept_refs(r, s);
    assert(kept1 =~= kept_refs(r, s));
    let st0 = SweepSt { other: other_refs(r, s), changed: false };
    let (out_items, st1) = sw_items(r, kept1, s, st0);
    lemma_sw_module_size(r, kept1, s, st0);
    assert(sw_live(kept1, st0, x));
    crate::laws::lemma_sw_items_keeps_binder(r, kept1, s, st0, x);
    assert(out_items.len() > 0) by {
        if out_items.len() == 0 {
            assert(crate::laws::module_binders(out_items) =~= Set::<u64>::empty());
        }
    }
    if st1.changed {
        lemma_sw_items_wf(r, kept1, s, st0);
        lemma_sw_items_kmon(r, kept1, s, st0);
        lemma_kept_reference_binding_present(r, kept1, out_items, x);
    } else {
        lemma_sw_items_nc(r, kept1, s, st0);
        assert(out_items == s);
    }
}

/// Idempotence: running the elimination a second time with the same retain
/// set returns the module unchanged, for any well-formed module: one whose
/// patterns do not carry the `Invalid` sentinel and whose named exports and
/// variable declarations are not empty shells.
pub proof fn lemma_idempotent(r: Set<Seq<char>>, s: Seq<ItemV>)
    requires
        wf_items(s),
    ensures
        drive(r, Set::<u64>::empty(), drive(r, Set::<u64>::empty(), s)) == drive(
            r,
            Set::<u64>::empty(),
            s,
        ),
{
    lemma_drive_stable(r, Set::<u64>::empty(), s);
}

} // verus!
