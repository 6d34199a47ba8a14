//! Proved laws of the elimination engine.
//!
//! - Retention soundness: an export whose name is retained is still exported
//!   by the result of the run.
//! - Deletion soundness: a sweep never deletes a binding whose symbol is
//!   live when the sweep starts (default exports aside, which are retained
//!   by name alone and cannot be kept alive by references).

use vstd::prelude::*;
use crate::ast::{DeclV, DeclaratorV, ExportSpecifierV, ImportSpecifierV, ItemV, PatV, PropV};
use crate::analysis::{
    decl_binders, decl_retained, export_spec_name, export_spec_retained, item_kept_refs,
    kept_refs, other_refs, pat_binders, prop_binders, props_binders, slot_binders, slots_binders,
};
use crate::engine::{drive, drive_step, lemma_sw_module_size};
use crate::liveness::default_name;
use crate::sweep::{
    sw_decls, sw_declarator, sw_export_specs, sw_import_specs, sw_item, sw_items, sw_live,
    sw_module, sw_pat, sw_prop, sw_props, sw_slots, SweepSt,
};

verus! {

// ----------------------------------------------------------------------------
// Exported names.
// ----------------------------------------------------------------------------

/// Whether a specifier list exports under the given name.
pub open spec fn specs_export_name(specifiers: Seq<ExportSpecifierV>, n: Seq<char>) -> bool {
    exists|j: int| 0 <= j < specifiers.len() && export_spec_name(#[trigger] specifiers[j]) == n
}

/// Whether one item exports under the given name.
pub open spec fn item_exports_name(it: ItemV, n: Seq<char>) -> bool {
    match it {
        ItemV::ExportNamed { specifiers, .. } => specs_export_name(specifiers, n),
        ItemV::ExportDefaultDecl { .. } => n == default_name(),
        ItemV::ExportDefaultExpr { .. } => n == default_name(),
        ItemV::ExportDecl { decl } => match decl {
            DeclV::Func { ident, .. } => ident.name == n,
            DeclV::Class { ident, .. } => ident.name == n,
            DeclV::Var { decls } => decls.len() > 0 && match decls[0].name {
                PatV::Ident(i) => i.name == n,
                _ => false,
            },
        },
        _ => false,
    }
}

/// Whether the module exports under the given name.
pub open spec fn has_export(s: Seq<ItemV>, n: Seq<char>) -> bool {
    exists|i: int| 0 <= i < s.len() && item_exports_name(#[trigger] s[i], n)
}

// ----------------------------------------------------------------------------
// Everything one item hands to the kept set is in the module's kept set.
// ----------------------------------------------------------------------------

proof fn lemma_item_kept_refs_subset(r: Set<Seq<char>>, s: Seq<ItemV>, i: int)
    requires
        0 <= i < s.len(),
    ensures
        item_kept_refs(r, s[i]).subset_of(kept_refs(r, s)),
    decreases s,
{
    if s.len() > 0 {
        if i < s.len() - 1 {
            lemma_item_kept_refs_subset(r, s.drop_last(), i);
            assert(s.drop_last()[i] == s[i]);
        } else {
            assert(s.last() == s[i]);
        }
    }
}

// ----------------------------------------------------------------------------
// Retention soundness, one sweep at a time.
// ----------------------------------------------------------------------------

proof fn lemma_sw_export_specs_keeps(r: Set<Seq<char>>, s: Seq<ExportSpecifierV>, n: Seq<char>)
    requires
        r.contains(n),
        specs_export_name(s, n),
    ensures
        specs_export_name(sw_export_specs(r, s), n),
    decreases s,
{
    let j = choose|j: int| 0 <= j < s.len() && export_spec_name(#[trigger] s[j]) == n;
    let out = sw_export_specs(r, s);
    let rest = sw_export_specs(r, s.drop_first());
    if j == 0 {
        assert(export_spec_retained(r, s[0]));
        assert(out[0] == s[0]);
    } else {
        assert(s.drop_first()[j - 1] == s[j]);
        assert(specs_export_name(s.drop_first(), n));
        lemma_sw_export_specs_keeps(r, s.drop_first(), n);
        let j2 = choose|j2: int|
            0 <= j2 < rest.len() && export_spec_name(#[trigger] rest[j2]) == n;
        if export_spec_retained(r, s[0]) {
            assert(out[j2 + 1] == rest[j2]);
        } else {
            assert(out == rest);
        }
    }
}

proof fn lemma_sw_item_keeps_export(
    r: Set<Seq<char>>,
    kept: Set<u64>,
    it: ItemV,
    st: SweepSt,
    n: Seq<char>,
)
    requires
        r.contains(n),
        item_exports_name(it, n),
        item_kept_refs(r, it).subset_of(kept),
    ensures
        ({
            let (out, st1) = sw_item(r, kept, it, st);
            out is Some && item_exports_name(out->0, n)
        }),
{
    match it {
        ItemV::ExportNamed { specifiers, src } => {
            lemma_sw_export_specs_keeps(r, specifiers, n);
            let out = sw_export_specs(r, specifiers);
            let j = choose|j: int| 0 <= j < out.len() && export_spec_name(#[trigger] out[j]) == n;
            assert(out.len() > 0);
            assert(item_exports_name(ItemV::ExportNamed { specifiers: out, src }, n));
        },
        ItemV::ExportDecl { decl } => {
            match decl {
                DeclV::Func { .. } => {},
                DeclV::Class { .. } => {},
                DeclV::Var { decls } => {
                    assert(decl_retained(r, decl));
                    let i0 = decls[0].name->Ident_0;
                    lemma_decls_binders_first(decls);
                    assert(pat_binders(decls[0].name).contains(i0.sym));
                    assert(decl_binders(decl).contains(i0.sym));
                    assert(item_kept_refs(r, it).contains(i0.sym));
                    assert(kept.contains(i0.sym));
                    assert(sw_live(kept, st, i0.sym));
                    let (q, stq) = sw_pat(kept, decls[0].name, st);
                    assert(q == decls[0].name);
                    let (d0, st1) = sw_declarator(kept, decls[0], st);
                    assert(d0 == Option::Some(
                        DeclaratorV { name: decls[0].name, init: decls[0].init },
                    ));
                    let (rest, st2) = sw_decls(kept, decls.drop_first(), st1);
                    let out = sw_decls(kept, decls, st).0;
                    assert(out == seq![
                        DeclaratorV { name: decls[0].name, init: decls[0].init },
                    ].add(rest));
                    assert(out.len() > 0);
                    assert(out[0].name == decls[0].name);
                    assert(item_exports_name(
                        ItemV::ExportDecl { decl: DeclV::Var { decls: out } },
                        n,
                    ));
                },
            }
        },
        _ => {},
    }
}

proof fn lemma_decls_binders_first(s: Seq<DeclaratorV>)
    requires
        s.len() > 0,
    ensures
        pat_binders(s[0].name).subset_of(crate::analysis::decls_binders(s)),
    decreases s,
{
    if s.len() == 1 {
        assert(s.last() == s[0]);
    } else {
        lemma_decls_binders_first(s.drop_last());
        assert(s.drop_last()[0] == s[0]);
    }
}

proof fn lemma_sw_items_keeps_export(
    r: Set<Seq<char>>,
    kept: Set<u64>,
    s: Seq<ItemV>,
    st: SweepSt,
    n: Seq<char>,
)
    requires
        r.contains(n),
        has_export(s, n),
        kept_refs(r, s).subset_of(kept),
    ensures
        has_export(sw_items(r, kept, s, st).0, n),
    decreases s,
{
    let i = choose|i: int| 0 <= i < s.len() && item_exports_name(#[trigger] s[i], n);
    let (out0, st1) = sw_item(r, kept, s[0], st);
    let (rest, st2) = sw_items(r, kept, s.drop_first(), st1);
    let out = sw_items(r, kept, s, st).0;
    if i == 0 {
        lemma_item_kept_refs_subset(r, s, 0);
        lemma_sw_item_keeps_export(r, kept, s[0], st, n);
        match out0 {
            Option::None => {
                assert(false);
            },
            Option::Some(q) => {
                assert(out[0] == q);
            },
        }
    } else {
        assert(s.drop_first()[i - 1] == s[i]);
        assert(kept_refs(r, s.drop_first()).subset_of(kept)) by {
            lemma_kept_refs_drop_first(r, s);
        }
        lemma_sw_items_keeps_export(r, kept, s.drop_first(), st1, n);
        let j = choose|j: int| 0 <= j < rest.len() && item_exports_name(#[trigger] rest[j], n);
        match out0 {
            Option::None => {
                assert(out == rest);
            },
            Option::Some(q) => {
                assert(out[j + 1] == rest[j]);
            },
        }
    }
}

proof fn lemma_kept_refs_drop_first(r: Set<Seq<char>>, s: Seq<ItemV>)
    requires
        s.len() > 0,
    ensures
        kept_refs(r, s.drop_first()).subset_of(kept_refs(r, s)),
    decreases s,
{
    if s.len() == 1 {
        assert(s.drop_first() =~= Seq::<ItemV>::empty());
    } else {
        lemma_kept_refs_drop_first(r, s.drop_last());
        assert(s.drop_last().drop_first() =~= s.drop_first().drop_last());
        assert(s.drop_first().last() == s.last());
    }
}

// ----------------------------------------------------------------------------
// Binding sites.
//
// Default exports are left out: they are retained by name alone, and a
// reference cannot keep one alive.
// ----------------------------------------------------------------------------

/// The local bindings of an import's specifiers.
pub open spec fn import_locals(s: Seq<ImportSpecifierV>) -> Set<u64>
    decreases s,
{
    if s.len() == 0 {
        Set::empty()
    } else {
        import_locals(s.drop_last()).insert(s.last().local.sym)
    }
}

/// The symbol identities an item binds at the top level.
pub open spec fn item_binders(it: ItemV) -> Set<u64> {
    match it {
        ItemV::Import { specifiers, .. } => import_locals(specifiers),
        ItemV::ExportDecl { decl } => decl_binders(decl),
        ItemV::Decl { decl } => decl_binders(decl),
        _ => Set::empty(),
    }
}

/// The symbol identities a module binds at the top level.
pub open spec fn module_binders(s: Seq<ItemV>) -> Set<u64>
    decreases s,
{
    if s.len() == 0 {
        Set::empty()
    } else {
        module_binders(s.drop_last()) + item_binders(s.last())
    }
}

pub(crate) proof fn lemma_import_locals_cons(x: ImportSpecifierV, rest: Seq<ImportSpecifierV>)
    ensures
        import_locals(seq![x] + rest) == import_locals(rest).insert(x.local.sym),
    decreases rest,
{
    if rest.len() == 0 {
        assert(seq![x] + rest =~= seq![x]);
        assert(seq![x].last() == x);
        assert(seq![x].drop_last() =~= Seq::<ImportSpecifierV>::empty());
        assert(import_locals(Seq::<ImportSpecifierV>::empty()) == Set::<u64>::empty());
        assert(import_locals(seq![x] + rest) =~= import_locals(rest).insert(x.local.sym));
    } else {
        lemma_import_locals_cons(x, rest.drop_last());
        assert((seq![x] + rest).drop_last() =~= seq![x] + rest.drop_last());
        assert((seq![x] + rest).last() == rest.last());
        assert(import_locals(seq![x] + rest) =~= import_locals(rest).insert(x.local.sym));
    }
}

pub(crate) proof fn lemma_slots_binders_cons(x: Option<PatV>, rest: Seq<Option<PatV>>)
    ensures
        slots_binders(seq![x] + rest) == slot_binders(x) + slots_binders(rest),
    decreases rest,
{
    if rest.len() == 0 {
        assert(seq![x] + rest =~= seq![x]);
        assert(seq![x].last() == x);
        assert(seq![x].drop_last() =~= Seq::<Option<PatV>>::empty());
        assert(slots_binders(Seq::<Option<PatV>>::empty()) == Set::<u64>::empty());
        assert(slots_binders(seq![x] + rest) =~= slot_binders(x) + slots_binders(rest));
    } else {
        lemma_slots_binders_cons(x, rest.drop_last());
        assert((seq![x] + rest).drop_last() =~= seq![x] + rest.drop_last());
        assert((seq![x] + rest).last() == rest.last());
        assert(slots_binders(seq![x] + rest) =~= slot_binders(x) + slots_binders(rest));
    }
}

pub(crate) proof fn lemma_props_binders_cons(x: PropV, rest: Seq<PropV>)
    ensures
        props_binders(seq![x] + rest) == prop_binders(x) + props_binders(rest),
    decreases rest,
{
    if rest.len() == 0 {
        assert(seq![x] + rest =~= seq![x]);
        assert(seq![x].last() == x);
        assert(seq![x].drop_last() =~= Seq::<PropV>::empty());
        assert(props_binders(Seq::<PropV>::empty()) == Set::<u64>::empty());
        assert(props_binders(seq![x] + rest) =~= prop_binders(x) + props_binders(rest));
    } else {
        lemma_props_binders_cons(x, rest.drop_last());
        assert((seq![x] + rest).drop_last() =~= seq![x] + rest.drop_last());
        assert((seq![x] + rest).last() == rest.last());
        assert(props_binders(seq![x] + rest) =~= prop_binders(x) + props_binders(rest));
    }
}

pub(crate) proof fn lemma_decls_binders_cons(x: DeclaratorV, rest: Seq<DeclaratorV>)
    ensures
        crate::analysis::decls_binders(seq![x] + rest) == crate::analysis::declarator_binders(x)
            + crate::analysis::decls_binders(rest),
    decreases rest,
{
    if rest.len() == 0 {
        assert(seq![x] + rest =~= seq![x]);
        assert(seq![x].last() == x);
        assert(seq![x].drop_last() =~= Seq::<DeclaratorV>::empty());
        assert(crate::analysis::decls_binders(Seq::<DeclaratorV>::empty()) == Set::<u64>::empty());
        assert(crate::analysis::decls_binders(seq![x] + rest)
            =~= crate::analysis::declarator_binders(x) + crate::analysis::decls_binders(rest));
    } else {
        lemma_decls_binders_cons(x, rest.drop_last());
        assert((seq![x] + rest).drop_last() =~= seq![x] + rest.drop_last());
        assert((seq![x] + rest).last() == rest.last());
        assert(crate::analysis::decls_binders(seq![x] + rest)
            =~= crate::analysis::declarator_binders(x) + crate::analysis::decls_binders(rest));
    }
}

pub(crate) proof fn lemma_module_binders_cons(x: ItemV, rest: Seq<ItemV>)
    ensures
        module_binders(seq![x] + rest) == item_binders(x) + module_binders(rest),
    decreases rest,
{
    if rest.len() == 0 {
        assert(seq![x] + rest =~= seq![x]);
        assert(seq![x].last() == x);
        assert(seq![x].drop_last() =~= Seq::<ItemV>::empty());
        assert(module_binders(Seq::<ItemV>::empty()) == Set::<u64>::empty());
        assert(module_binders(seq![x] + rest) =~= item_binders(x) + module_binders(rest));
    } else {
        lemma_module_binders_cons(x, rest.drop_last());
        assert((seq![x] + rest).drop_last() =~= seq![x] + rest.drop_last());
        assert((seq![x] + rest).last() == rest.last());
        assert(module_binders(seq![x] + rest) =~= item_binders(x) + module_binders(rest));
    }
}

// ----------------------------------------------------------------------------
// The other-set only grows during a sweep.
// ----------------------------------------------------------------------------

proof fn lemma_sw_pat_other_mono(kept: Set<u64>, p: PatV, st: SweepSt)
    ensures
        st.other.subset_of(sw_pat(kept, p, st).1.other),
    decreases p,
{
    match p {
        PatV::Ident(_) => {},
        PatV::Array(slots) => {
            if slots.len() > 0 {
                lemma_sw_slots_other_mono(kept, slots, st);
            }
        },
        PatV::Object(props) => {
            if props.len() > 0 {
                lemma_sw_props_other_mono(kept, props, st);
            }
        },
        PatV::Rest(inner) => {
            lemma_sw_pat_other_mono(kept, *inner, st);
        },
        PatV::Invalid => {},
    }
}

proof fn lemma_sw_slots_other_mono(kept: Set<u64>, s: Seq<Option<PatV>>, st: SweepSt)
    ensures
        st.other.subset_of(sw_slots(kept, s, st).1.other),
    decreases s,
{
    if s.len() > 0 {
        match s[0] {
            Option::None => {
                lemma_sw_slots_other_mono(kept, s.drop_first(), st);
            },
            Option::Some(p) => {
                lemma_sw_pat_other_mono(kept, p, st);
                let (q, st1) = sw_pat(kept, p, st);
                lemma_sw_slots_other_mono(kept, s.drop_first(), st1);
            },
        }
    }
}

proof fn lemma_sw_props_other_mono(kept: Set<u64>, s: Seq<PropV>, st: SweepSt)
    ensures
        st.other.subset_of(sw_props(kept, s, st).1.other),
    decreases s,
{
    if s.len() > 0 {
        lemma_sw_prop_other_mono(kept, s[0], st);
        let (out0, st1) = sw_prop(kept, s[0], st);
        lemma_sw_props_other_mono(kept, s.drop_first(), st1);
    }
}

proof fn lemma_sw_prop_other_mono(kept: Set<u64>, p: PropV, st: SweepSt)
    ensures
        st.other.subset_of(sw_prop(kept, p, st).1.other),
    decreases p,
{
    match p {
        PropV::KeyValue(inner) => {
            lemma_sw_pat_other_mono(kept, *inner, st);
        },
        PropV::Assign { .. } => {},
        PropV::Rest(inner) => {
            lemma_sw_pat_other_mono(kept, *inner, st);
        },
    }
}

proof fn lemma_sw_declarator_other_mono(kept: Set<u64>, d: DeclaratorV, st: SweepSt)
    ensures
        st.other.subset_of(sw_declarator(kept, d, st).1.other),
{
    lemma_sw_pat_other_mono(kept, d.name, st);
}

proof fn lemma_sw_decls_other_mono(kept: Set<u64>, s: Seq<DeclaratorV>, st: SweepSt)
    ensures
        st.other.subset_of(sw_decls(kept, s, st).1.other),
    decreases s,
{
    if s.len() > 0 {
        lemma_sw_declarator_other_mono(kept, s[0], st);
        let (out0, st1) = sw_declarator(kept, s[0], st);
        lemma_sw_decls_other_mono(kept, s.drop_first(), st1);
    }
}

pub(crate) proof fn lemma_sw_item_other_mono(r: Set<Seq<char>>, kept: Set<u64>, it: ItemV, st: SweepSt)
    ensures
        st.other.subset_of(sw_item(r, kept, it, st).1.other),
{
    match it {
        ItemV::ExportDecl { decl } => match decl {
            DeclV::Var { decls } => {
                lemma_sw_decls_other_mono(kept, decls, st);
            },
            _ => {},
        },
        ItemV::Decl { decl } => match decl {
            DeclV::Var { decls } => {
                lemma_sw_decls_other_mono(kept, decls, st);
            },
            _ => {},
        },
        _ => {},
    }
}

// ----------------------------------------------------------------------------
// A live binding survives the sweep.
// ----------------------------------------------------------------------------

pub(crate) proof fn lemma_sw_pat_keeps_binder(kept: Set<u64>, p: PatV, st: SweepSt, x: u64)
    requires
        sw_live(kept, st, x),
        pat_binders(p).contains(x),
    ensures
        pat_binders(sw_pat(kept, p, st).0).contains(x),
    decreases p,
{
    match p {
        PatV::Ident(i) => {},
        PatV::Array(slots) => {
            if slots.len() > 0 {
                lemma_sw_slots_keeps_binder(kept, slots, st, x);
                let (out, st1) = sw_slots(kept, slots, st);
                assert(out.len() > 0) by {
                    if out.len() == 0 {
                        assert(slots_binders(out) =~= Set::<u64>::empty());
                    }
                }
            }
        },
        PatV::Object(props) => {
            if props.len() > 0 {
                lemma_sw_props_keeps_binder(kept, props, st, x);
                let (out, st1) = sw_props(kept, props, st);
                assert(out.len() > 0) by {
                    if out.len() == 0 {
                        assert(props_binders(out) =~= Set::<u64>::empty());
                    }
                }
            }
        },
        PatV::Rest(inner) => {
            lemma_sw_pat_keeps_binder(kept, *inner, st, x);
            let (q, st1) = sw_pat(kept, *inner, st);
            assert(!(q is Invalid));
        },
        PatV::Invalid => {},
    }
}

proof fn lemma_sw_slots_keeps_binder(kept: Set<u64>, s: Seq<Option<PatV>>, st: SweepSt, x: u64)
    requires
        sw_live(kept, st, x),
        slots_binders(s).contains(x),
    ensures
        slots_binders(sw_slots(kept, s, st).0).contains(x),
    decreases s,
{
    assert(s.len() > 0) by {
        if s.len() == 0 {
            assert(slots_binders(s) =~= Set::<u64>::empty());
        }
    }
    assert(s =~= seq![s[0]] + s.drop_first());
    lemma_slots_binders_cons(s[0], s.drop_first());
    match s[0] {
        Option::None => {
            lemma_sw_slots_keeps_binder(kept, s.drop_first(), st, x);
            let (rest, st1) = sw_slots(kept, s.drop_first(), st);
            lemma_slots_binders_cons(Option::None, rest);
        },
        Option::Some(p) => {
            let (q, st1) = sw_pat(kept, p, st);
            let (rest, st2) = sw_slots(kept, s.drop_first(), st1);
            lemma_sw_pat_other_mono(kept, p, st);
            if pat_binders(p).contains(x) {
                lemma_sw_pat_keeps_binder(kept, p, st, x);
                assert(!(q is Invalid));
                lemma_sw_slots_other_mono(kept, s.drop_first(), st1);
                lemma_slots_binders_cons(Option::Some(q), rest);
            } else {
                lemma_sw_slots_keeps_binder(kept, s.drop_first(), st1, x);
                if !(q is Invalid) {
                    lemma_slots_binders_cons(Option::Some(q), rest);
                }
            }
        },
    }
}

proof fn lemma_sw_props_keeps_binder(kept: Set<u64>, s: Seq<PropV>, st: SweepSt, x: u64)
    requires
        sw_live(kept, st, x),
        props_binders(s).contains(x),
    ensures
        props_binders(sw_props(kept, s, st).0).contains(x),
    decreases s,
{
    assert(s.len() > 0) by {
        if s.len() == 0 {
            assert(props_binders(s) =~= Set::<u64>::empty());
        }
    }
    assert(s =~= seq![s[0]] + s.drop_first());
    lemma_props_binders_cons(s[0], s.drop_first());
    let (out0, st1) = sw_prop(kept, s[0], st);
    let (rest, st2) = sw_props(kept, s.drop_first(), st1);
    lemma_sw_prop_other_mono(kept, s[0], st);
    if prop_binders(s[0]).contains(x) {
        lemma_sw_prop_keeps_binder(kept, s[0], st, x);
        let q = out0->0;
        lemma_props_binders_cons(q, rest);
    } else {
        lemma_sw_props_keeps_binder(kept, s.drop_first(), st1, x);
        match out0 {
            Option::None => {},
            Option::Some(q) => {
                lemma_props_binders_cons(q, rest);
            },
        }
    }
}

proof fn lemma_sw_prop_keeps_binder(kept: Set<u64>, p: PropV, st: SweepSt, x: u64)
    requires
        sw_live(kept, st, x),
        prop_binders(p).contains(x),
    ensures
        ({
            let (out, st1) = sw_prop(kept, p, st);
            out is Some && prop_binders(out->0).contains(x)
        }),
    decreases p,
{
    match p {
        PropV::KeyValue(inner) => {
            lemma_sw_pat_keeps_binder(kept, *inner, st, x);
            let (q, st1) = sw_pat(kept, *inner, st);
            assert(!(q is Invalid));
        },
        PropV::Assign { key, .. } => {},
        PropV::Rest(inner) => {
            lemma_sw_pat_keeps_binder(kept, *inner, st, x);
            let (q, st1) = sw_pat(kept, *inner, st);
            assert(!(q is Invalid));
        },
    }
}

proof fn lemma_sw_decls_keeps_binder(kept: Set<u64>, s: Seq<DeclaratorV>, st: SweepSt, x: u64)
    requires
        sw_live(kept, st, x),
        crate::analysis::decls_binders(s).contains(x),
    ensures
        crate::analysis::decls_binders(sw_decls(kept, s, st).0).contains(x),
    decreases s,
{
    assert(s.len() > 0) by {
        if s.len() == 0 {
            assert(crate::analysis::decls_binders(s) =~= Set::<u64>::empty());
        }
    }
    assert(s =~= seq![s[0]] + s.drop_first());
    lemma_decls_binders_cons(s[0], s.drop_first());
    let (out0, st1) = sw_declarator(kept, s[0], st);
    let (rest, st2) = sw_decls(kept, s.drop_first(), st1);
    lemma_sw_declarator_other_mono(kept, s[0], st);
    if crate::analysis::declarator_binders(s[0]).contains(x) {
        let (q, stq) = sw_pat(kept, s[0].name, st);
        lemma_sw_pat_keeps_binder(kept, s[0].name, st, x);
        assert(!(q is Invalid));
        lemma_decls_binders_cons(DeclaratorV { name: q, init: s[0].init }, rest);
    } else {
        lemma_sw_decls_keeps_binder(kept, s.drop_first(), st1, x);
        match out0 {
            Option::None => {},
            Option::Some(q) => {
                lemma_decls_binders_cons(q, rest);
            },
        }
    }
}

proof fn lemma_sw_import_specs_keeps_binder(
    kept: Set<u64>,
    st: SweepSt,
    s: Seq<ImportSpecifierV>,
    x: u64,
)
    requires
        sw_live(kept, st, x),
        import_locals(s).contains(x),
    ensures
        import_locals(sw_import_specs(kept, st, s)).contains(x),
    decreases s,
{
    assert(s.len() > 0) by {
        if s.len() == 0 {
            assert(import_locals(s) =~= Set::<u64>::empty());
        }
    }
    assert(s =~= seq![s[0]] + s.drop_first());
    lemma_import_locals_cons(s[0], s.drop_first());
    let rest = sw_import_specs(kept, st, s.drop_first());
    if s[0].local.sym == x {
        lemma_import_locals_cons(s[0], rest);
    } else {
        lemma_sw_import_specs_keeps_binder(kept, st, s.drop_first(), x);
        if sw_live(kept, st, s[0].local.sym) {
            lemma_import_locals_cons(s[0], rest);
        }
    }
}

proof fn lemma_sw_item_keeps_binder(
    r: Set<Seq<char>>,
    kept: Set<u64>,
    it: ItemV,
    st: SweepSt,
    x: u64,
)
    requires
        sw_live(kept, st, x),
        item_binders(it).contains(x),
    ensures
        ({
            let (out, st1) = sw_item(r, kept, it, st);
            out is Some && item_binders(out->0).contains(x)
        }),
{
    match it {
        ItemV::Import { specifiers, source } => {
            assert(specifiers.len() > 0) by {
                if specifiers.len() == 0 {
                    assert(import_locals(specifiers) =~= Set::<u64>::empty());
                }
            }
            lemma_sw_import_specs_keeps_binder(kept, st, specifiers, x);
            let out = sw_import_specs(kept, st, specifiers);
            assert(out.len() > 0) by {
                if out.len() == 0 {
                    assert(import_locals(out) =~= Set::<u64>::empty());
                }
            }
        },
        ItemV::ExportDecl { decl } => match decl {
            DeclV::Func { .. } => {},
            DeclV::Class { .. } => {},
            DeclV::Var { decls } => {
                lemma_sw_decls_keeps_binder(kept, decls, st, x);
                let (out, st1) = sw_decls(kept, decls, st);
                assert(out.len() > 0) by {
                    if out.len() == 0 {
                        assert(crate::analysis::decls_binders(out) =~= Set::<u64>::empty());
                    }
                }
            },
        },
        ItemV::Decl { decl } => match decl {
            DeclV::Func { .. } => {},
            DeclV::Class { .. } => {},
            DeclV::Var { decls } => {
                lemma_sw_decls_keeps_binder(kept, decls, st, x);
                let (out, st1) = sw_decls(kept, decls, st);
                assert(out.len() > 0) by {
                    if out.len() == 0 {
                        assert(crate::analysis::decls_binders(out) =~= Set::<u64>::empty());
                    }
                }
            },
        },
        _ => {},
    }
}

pub(crate) proof fn lemma_sw_items_keeps_binder(
    r: Set<Seq<char>>,
    kept: Set<u64>,
    s: Seq<ItemV>,
    st: SweepSt,
    x: u64,
)
    requires
        sw_live(kept, st, x),
        module_binders(s).contains(x),
    ensures
        module_binders(sw_items(r, kept, s, st).0).contains(x),
    decreases s,
{
    assert(s.len() > 0) by {
        if s.len() == 0 {
            assert(module_binders(s) =~= Set::<u64>::empty());
        }
    }
    assert(s =~= seq![s[0]] + s.drop_first());
    lemma_module_binders_cons(s[0], s.drop_first());
    let (out0, st1) = sw_item(r, kept, s[0], st);
    let (rest, st2) = sw_items(r, kept, s.drop_first(), st1);
    lemma_sw_item_other_mono(r, kept, s[0], st);
    if item_binders(s[0]).contains(x) {
        lemma_sw_item_keeps_binder(r, kept, s[0], st, x);
        lemma_module_binders_cons(out0->0, rest);
    } else {
        lemma_sw_items_keeps_binder(r, kept, s.drop_first(), st1, x);
        match out0 {
            Option::None => {},
            Option::Some(q) => {
                lemma_module_binders_cons(q, rest);
            },
        }
    }
}

/// Deletion soundness: a sweep deletes a top-level binding only if its
/// symbol is in neither liveness set when its item is reached; a symbol that
/// is live at the start of the sweep keeps its binding.  (Default exports
/// stand apart: they are retained by their name alone and bind nothing
/// here.)
pub proof fn lemma_live_binding_not_deleted(
    r: Set<Seq<char>>,
    kept: Set<u64>,
    s: Seq<ItemV>,
    st: SweepSt,
    x: u64,
)
    requires
        sw_live(kept, st, x),
        module_binders(s).contains(x),
    ensures
        module_binders(sw_module(r, kept, s, st).0).contains(x),
{
    lemma_sw_items_keeps_binder(r, kept, s, st, x);
    let (out, st1) = sw_items(r, kept, s, st);
    assert(out.len() > 0) by {
        if out.len() == 0 {
            assert(module_binders(out) =~= Set::<u64>::empty());
        }
    }
}

/// Retention soundness: an export whose name is retained is still exported
/// by the result of the whole run.
pub proof fn lemma_retained_export_present(
    r: Set<Seq<char>>,
    kept: Set<u64>,
    s: Seq<ItemV>,
    n: Seq<char>,
)
    requires
        r.contains(n),
        has_export(s, n),
    ensures
        has_export(drive(r, kept, s), n),
    decreases crate::ast::module_size(s),
{
    let (out, kept1, changed) = drive_step(r, kept, s);
    let st = SweepSt { other: other_refs(r, s), changed: false };
    lemma_sw_module_size(r, kept1, s, st);
    assert(kept_refs(r, s).subset_of(kept1));
    lemma_sw_items_keeps_export(r, kept1, s, st, n);
    let inner = sw_items(r, kept1, s, st).0;
    assert(inner.len() > 0);
    assert(out == inner);
    if changed {
        lemma_retained_export_present(r, kept1, out, n);
    }
}

} // verus!
