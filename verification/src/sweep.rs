//! The pruner/sweeper.
//!
//! One pass walks the module and deletes what is dead under the current
//! liveness state: import specifiers whose local binding is not live (and
//! whole imports once every specifier is gone), named-export specifiers whose
//! exported name is not retained, default exports when `"default"` is not
//! retained, exported and plain declarations that are neither retained by
//! name nor live, declarator bindings whose pattern has become fully
//! `Invalid`, and every other top-level statement unconditionally.  When a
//! whole subtree is deleted, the references inside it are first registered
//! into `used_by_other` ("mark as candidate"), so that anything the deleted
//! code referenced survives until the next pass rebuilds the other-set from
//! the smaller tree.  Every deletion of real content records `changed`;
//! dropping an already-empty placeholder does not, so a converged module
//! stays converged.
//!
//! After the pass, if no item is left, a single named export with no
//! specifiers is emitted so the module stays a syntactically valid module.
//!
//! The spec functions below define the swept tree node by node; `sweep` is
//! the executable pass, proved to return exactly that tree and state.

use vstd::prelude::*;
use crate::ast::{
    copy_expr, copy_ident, copy_opt_expr, decls_view, export_specs_view, import_specs_view,
    items_view, lemma_concat_push, lemma_decls_view_index, lemma_decls_view_push,
    lemma_export_specs_view_index, lemma_export_specs_view_push, lemma_import_specs_view_index,
    lemma_import_specs_view_push, lemma_items_view_index, lemma_items_view_push,
    lemma_props_view_index, lemma_props_view_push, lemma_slots_view_index, lemma_slots_view_push,
    opt_view, pat_is_invalid, prop_view, props_view, slot_view, slots_view, Decl, DeclV,
    Declarator, DeclaratorV, ExportSpecifier, ExportSpecifierV, Expr, Ident, Item, ItemV,
    ImportSpecifier, ImportSpecifierV, Module, ObjectPatProp, Pat, PatV, PropV,
};
use crate::analysis::{export_spec_retained, opt_expr_refs, record_opt_refs, record_refs};
use crate::liveness::{default_name, idset, names_set, retains_default, retains_name, LivenessState};

verus! {

// ----------------------------------------------------------------------------
// The sweep's view of the liveness state.
//
// `used_by_kept` never changes during a sweep, so it is carried as a plain
// set parameter `kept`; the sweep threads the other-set (which grows by
// mark-as-candidate registrations) and the changed flag.
// ----------------------------------------------------------------------------

#[verifier::ext_equal]
pub ghost struct SweepSt {
    pub other: Set<u64>,
    pub changed: bool,
}

/// The sweep-relevant part of a liveness state.
pub open spec fn sweep_view(st: LivenessState) -> SweepSt {
    SweepSt { other: st.other_set(), changed: st.changed }
}

/// A symbol is live while either set holds it.
pub open spec fn sw_live(kept: Set<u64>, st: SweepSt, sym: u64) -> bool {
    kept.contains(sym) || st.other.contains(sym)
}

/// Mark-as-candidate: register the references of a subtree that is being
/// deleted, and record the deletion.
pub open spec fn sw_register(st: SweepSt, refs: Set<u64>) -> SweepSt {
    SweepSt { other: st.other + refs, changed: true }
}

/// Record a deletion without registering anything.
pub open spec fn sw_changed(st: SweepSt) -> SweepSt {
    SweepSt { other: st.other, changed: true }
}

// ----------------------------------------------------------------------------
// Patterns.
// ----------------------------------------------------------------------------

/// Sweep a binding pattern; `Invalid` means the pattern is fully dead.
pub open spec fn sw_pat(kept: Set<u64>, p: PatV, st: SweepSt) -> (PatV, SweepSt)
    decreases p,
{
    match p {
        PatV::Ident(i) => if sw_live(kept, st, i.sym) {
            (p, st)
        } else {
            (PatV::Invalid, sw_changed(st))
        },
        PatV::Array(slots) => if slots.len() == 0 {
            (p, st)
        } else {
            let (out, st1) = sw_slots(kept, slots, st);
            if out.len() == 0 {
                (PatV::Invalid, st1)
            } else {
                (PatV::Array(out), st1)
            }
        },
        PatV::Object(props) => if props.len() == 0 {
            (p, st)
        } else {
            let (out, st1) = sw_props(kept, props, st);
            if out.len() == 0 {
                (PatV::Invalid, st1)
            } else {
                (PatV::Object(out), st1)
            }
        },
        PatV::Rest(inner) => {
            let (q, st1) = sw_pat(kept, *inner, st);
            if q is Invalid {
                (PatV::Invalid, st1)
            } else {
                (PatV::Rest(Box::new(q)), st1)
            }
        },
        PatV::Invalid => (p, st),
    }
}

/// Sweep the slots of an array pattern left to right; a slot whose pattern
/// became `Invalid` is removed, holes stay.
pub open spec fn sw_slots(kept: Set<u64>, s: Seq<Option<PatV>>, st: SweepSt) -> (
    Seq<Option<PatV>>,
    SweepSt,
)
    decreases s,
{
    if s.len() == 0 {
        (Seq::empty(), st)
    } else {
        match s[0] {
            Option::None => {
                let (rest, st1) = sw_slots(kept, s.drop_first(), st);
                (seq![Option::None].add(rest), st1)
            },
            Option::Some(p) => {
                let (q, st1) = sw_pat(kept, p, st);
                let (rest, st2) = sw_slots(kept, s.drop_first(), st1);
                if q is Invalid {
                    (rest, st2)
                } else {
                    (seq![Option::Some(q)].add(rest), st2)
                }
            },
        }
    }
}

/// Sweep the properties of an object pattern left to right.
pub open spec fn sw_props(kept: Set<u64>, s: Seq<PropV>, st: SweepSt) -> (Seq<PropV>, SweepSt)
    decreases s,
{
    if s.len() == 0 {
        (Seq::empty(), st)
    } else {
        let (out0, st1) = sw_prop(kept, s[0], st);
        let (rest, st2) = sw_props(kept, s.drop_first(), st1);
        match out0 {
            Option::None => (rest, st2),
            Option::Some(q) => (seq![q].add(rest), st2),
        }
    }
}

/// Sweep one object-pattern property.  A keyed property is dropped when its
/// value pattern became `Invalid`; a shorthand property is dropped when its
/// binding is not live, registering its default value; a rest property is
/// dropped when its inner pattern became `Invalid`.
pub open spec fn sw_prop(kept: Set<u64>, p: PropV, st: SweepSt) -> (Option<PropV>, SweepSt)
    decreases p,
{
    match p {
        PropV::KeyValue(inner) => {
            let (q, st1) = sw_pat(kept, *inner, st);
            if q is Invalid {
                (Option::None, st1)
            } else {
                (Option::Some(PropV::KeyValue(Box::new(q))), st1)
            }
        },
        PropV::Assign { key, default } => if sw_live(kept, st, key.sym) {
            (Option::Some(p), st)
        } else {
            (Option::None, sw_register(st, opt_expr_refs(default)))
        },
        PropV::Rest(inner) => {
            let (q, st1) = sw_pat(kept, *inner, st);
            if q is Invalid {
                (Option::None, st1)
            } else {
                (Option::Some(PropV::Rest(Box::new(q))), st1)
            }
        },
    }
}

// ----------------------------------------------------------------------------
// Declarators.
// ----------------------------------------------------------------------------

/// Sweep one declarator: sweep its pattern; if the pattern is fully dead,
/// register the initializer and drop the declarator.
pub open spec fn sw_declarator(kept: Set<u64>, d: DeclaratorV, st: SweepSt) -> (
    Option<DeclaratorV>,
    SweepSt,
) {
    let (q, st1) = sw_pat(kept, d.name, st);
    if q is Invalid {
        (Option::None, sw_register(st1, opt_expr_refs(d.init)))
    } else {
        (Option::Some(DeclaratorV { name: q, init: d.init }), st1)
    }
}

/// Sweep a declarator list left to right, dropping dead declarators.
pub open spec fn sw_decls(kept: Set<u64>, s: Seq<DeclaratorV>, st: SweepSt) -> (
    Seq<DeclaratorV>,
    SweepSt,
)
    decreases s,
{
    if s.len() == 0 {
        (Seq::empty(), st)
    } else {
        let (out0, st1) = sw_declarator(kept, s[0], st);
        let (rest, st2) = sw_decls(kept, s.drop_first(), st1);
        match out0 {
            Option::None => (rest, st2),
            Option::Some(q) => (seq![q].add(rest), st2),
        }
    }
}

// ----------------------------------------------------------------------------
// Items.
// ----------------------------------------------------------------------------

/// The import specifiers whose local binding is live.  Liveness is fixed
/// while one import is filtered: dropping a specifier registers nothing.
pub open spec fn sw_import_specs(kept: Set<u64>, st: SweepSt, s: Seq<ImportSpecifierV>) -> Seq<
    ImportSpecifierV,
>
    decreases s,
{
    if s.len() == 0 {
        Seq::empty()
    } else {
        let rest = sw_import_specs(kept, st, s.drop_first());
        if sw_live(kept, st, s[0].local.sym) {
            seq![s[0]].add(rest)
        } else {
            rest
        }
    }
}

/// The named-export specifiers whose exported name is retained.
pub open spec fn sw_export_specs(r: Set<Seq<char>>, s: Seq<ExportSpecifierV>) -> Seq<
    ExportSpecifierV,
>
    decreases s,
{
    if s.len() == 0 {
        Seq::empty()
    } else {
        let rest = sw_export_specs(r, s.drop_first());
        if export_spec_retained(r, s[0]) {
            seq![s[0]].add(rest)
        } else {
            rest
        }
    }
}

/// Sweep one top-level item; `None` means the item is deleted.
pub open spec fn sw_item(r: Set<Seq<char>>, kept: Set<u64>, it: ItemV, st: SweepSt) -> (
    Option<ItemV>,
    SweepSt,
) {
    match it {
        ItemV::Import { specifiers, source } => if specifiers.len() == 0 {
            // A side-effect-only import is never dropped.
            (Option::Some(it), st)
        } else {
            let out = sw_import_specs(kept, st, specifiers);
            let st1 = if out.len() < specifiers.len() {
                sw_changed(st)
            } else {
                st
            };
            if out.len() == 0 {
                (Option::None, st1)
            } else {
                (Option::Some(ItemV::Import { specifiers: out, source }), st1)
            }
        },
        ItemV::ExportNamed { specifiers, src } => {
            let out = sw_export_specs(r, specifiers);
            let st1 = if out.len() < specifiers.len() {
                sw_changed(st)
            } else {
                st
            };
            if out.len() == 0 {
                // Dropping the emptied (or already empty) export list is not
                // itself a change.
                (Option::None, st1)
            } else {
                (Option::Some(ItemV::ExportNamed { specifiers: out, src }), st1)
            }
        },
        ItemV::ExportDefaultDecl { .. } => if r.contains(default_name()) {
            (Option::Some(it), st)
        } else {
            (Option::None, sw_changed(st))
        },
        ItemV::ExportDefaultExpr { .. } => if r.contains(default_name()) {
            (Option::Some(it), st)
        } else {
            (Option::None, sw_changed(st))
        },
        ItemV::ExportAll { .. } => (Option::Some(it), st),
        ItemV::ExportDecl { decl } => match decl {
            DeclV::Func { ident, body } => if r.contains(ident.name) || sw_live(
                kept,
                st,
                ident.sym,
            ) {
                (Option::Some(it), st)
            } else {
                (Option::None, sw_register(st, idset(body.refs)))
            },
            DeclV::Class { ident, body } => if r.contains(ident.name) || sw_live(
                kept,
                st,
                ident.sym,
            ) {
                (Option::Some(it), st)
            } else {
                (Option::None, sw_register(st, idset(body.refs)))
            },
            DeclV::Var { decls } => {
                let (out, st1) = sw_decls(kept, decls, st);
                if out.len() == 0 {
                    (Option::None, st1)
                } else {
                    (Option::Some(ItemV::ExportDecl { decl: DeclV::Var { decls: out } }), st1)
                }
            },
        },
        ItemV::Decl { decl } => match decl {
            DeclV::Func { ident, body } => if sw_live(kept, st, ident.sym) {
                (Option::Some(it), st)
            } else {
                (Option::None, sw_register(st, idset(body.refs)))
            },
            DeclV::Class { ident, body } => if sw_live(kept, st, ident.sym) {
                (Option::Some(it), st)
            } else {
                (Option::None, sw_register(st, idset(body.refs)))
            },
            DeclV::Var { decls } => {
                let (out, st1) = sw_decls(kept, decls, st);
                if out.len() == 0 {
                    (Option::None, st1)
                } else {
                    (Option::Some(ItemV::Decl { decl: DeclV::Var { decls: out } }), st1)
                }
            },
        },
        ItemV::Stmt { .. } => (Option::None, sw_changed(st)),
    }
}

/// Sweep the item list left to right.
pub open spec fn sw_items(r: Set<Seq<char>>, kept: Set<u64>, s: Seq<ItemV>, st: SweepSt) -> (
    Seq<ItemV>,
    SweepSt,
)
    decreases s,
{
    if s.len() == 0 {
        (Seq::empty(), st)
    } else {
        let (out0, st1) = sw_item(r, kept, s[0], st);
        let (rest, st2) = sw_items(r, kept, s.drop_first(), st1);
        match out0 {
            Option::None => (rest, st2),
            Option::Some(q) => (seq![q].add(rest), st2),
        }
    }
}

/// The single item a fully emptied module collapses to: a named export with
/// no specifiers, which keeps the file a syntactically valid module.
pub open spec fn empty_export_item() -> ItemV {
    ItemV::ExportNamed { specifiers: Seq::empty(), src: Option::None }
}

/// One whole sweep: sweep every item, then normalize an empty result to the
/// single empty named export.
pub open spec fn sw_module(r: Set<Seq<char>>, kept: Set<u64>, s: Seq<ItemV>, st: SweepSt) -> (
    Seq<ItemV>,
    SweepSt,
) {
    let (out, st1) = sw_items(r, kept, s, st);
    if out.len() == 0 {
        (seq![empty_export_item()], st1)
    } else {
        (out, st1)
    }
}

// ----------------------------------------------------------------------------
// The executable sweeper.
// ----------------------------------------------------------------------------

/// Register the references of a subtree that is being deleted and record the
/// deletion ("mark as candidate").
fn mark_candidate(e: &Expr, st: &mut LivenessState)
    ensures
        final(st).other_set() == sw_register(sweep_view(*old(st)), idset(e.refs@)).other,
        final(st).changed == sw_register(sweep_view(*old(st)), idset(e.refs@)).changed,
        final(st).kept_set() == old(st).kept_set(),
{
    record_refs(e, false, st);
    st.changed = true;
}

/// The same for an optional expression.
fn mark_candidate_opt(e: &Option<Expr>, st: &mut LivenessState)
    ensures
        final(st).other_set() == sw_register(
            sweep_view(*old(st)),
            opt_expr_refs(opt_view(*e)),
        ).other,
        final(st).changed == sw_register(sweep_view(*old(st)), opt_expr_refs(opt_view(*e))).changed,
        final(st).kept_set() == old(st).kept_set(),
{
    record_opt_refs(e, false, st);
    st.changed = true;
    proof {
        assert(st.other_set() =~= sw_register(
            sweep_view(*old(st)),
            opt_expr_refs(opt_view(*e)),
        ).other);
    }
}

/// Sweep one binding pattern.
fn sweep_pat(p: &Pat, st: &mut LivenessState) -> (r: Pat)
    ensures
        r@ == sw_pat(old(st).kept_set(), p@, sweep_view(*old(st))).0,
        final(st).other_set() == sw_pat(old(st).kept_set(), p@, sweep_view(*old(st))).1.other,
        final(st).changed == sw_pat(old(st).kept_set(), p@, sweep_view(*old(st))).1.changed,
        final(st).kept_set() == old(st).kept_set(),
    decreases *p,
{
    let ghost k = st.kept_set();
    match p {
        Pat::Ident(id) => {
            if st.is_live(id.sym) {
                Pat::Ident(copy_ident(id))
            } else {
                st.changed = true;
                Pat::Invalid
            }
        },
        Pat::Array(slots) => {
            if slots.len() == 0 {
                let v: Vec<Option<Pat>> = Vec::new();
                proof {
                    assert(slots_view(v@) =~= slots_view(slots@));
                }
                Pat::Array(v)
            } else {
                let ghost sv = slots_view(slots@);
                let ghost st_in = sweep_view(*st);
                let ghost full = sw_slots(k, sv, st_in);
                proof {
                    lemma_slots_view_index(slots@);
                    assert(sv.skip(0) =~= sv);
                }
                let mut out: Vec<Option<Pat>> = Vec::new();
                let mut i: usize = 0;
                while i < slots.len()
                    invariant
                        i <= slots.len(),
                        st.kept_set() == k,
                        full.0 == slots_view(out@) + sw_slots(k, sv.skip(i as int), sweep_view(*st)).0,
                        full.1 == sw_slots(k, sv.skip(i as int), sweep_view(*st)).1,
                    decreases slots.len() - i,
                {
                    let ghost out0 = out@;
                    let ghost stv0 = sweep_view(*st);
                    proof {
                        assert(sv[i as int] == slot_view(slots@[i as int]));
                        assert(sv.skip(i as int)[0] == sv[i as int]);
                        assert(sv.skip(i as int).drop_first() =~= sv.skip(i as int + 1));
                    }
                    match &slots[i] {
                        Option::None => {
                            out.push(Option::None);
                            proof {
                                lemma_slots_view_push(out0, Option::None);
                                lemma_concat_push(
                                    slots_view(out0),
                                    Option::None,
                                    sw_slots(k, sv.skip(i as int + 1), sweep_view(*st)).0,
                                );
                            }
                        },
                        Option::Some(sub) => {
                            let q = sweep_pat(sub, st);
                            if pat_is_invalid(&q) {
                            } else {
                                let ghost qv = q@;
                                out.push(Option::Some(q));
                                proof {
                                    lemma_slots_view_push(out0, Option::Some(q));
                                    lemma_concat_push(
                                        slots_view(out0),
                                        Option::Some(qv),
                                        sw_slots(k, sv.skip(i as int + 1), sweep_view(*st)).0,
                                    );
                                }
                            }
                        },
                    }
                    proof {
                        match sv[i as int] {
                            Option::Some(pspec) => {
                                assert(sweep_view(*st) =~= sw_pat(k, pspec, stv0).1);
                            },
                            Option::None => {
                                assert(sweep_view(*st) =~= stv0);
                            },
                        }
                    }
                    i = i + 1;
                }
                proof {
                    assert(sv.skip(sv.len() as int) =~= Seq::<Option<PatV>>::empty());
                    assert(slots_view(out@) + Seq::<Option<PatV>>::empty() =~= slots_view(out@));
                    lemma_slots_view_index(out@);
                }
                if out.len() == 0 {
                    Pat::Invalid
                } else {
                    Pat::Array(out)
                }
            }
        },
        Pat::Object(props) => {
            if props.len() == 0 {
                let v: Vec<ObjectPatProp> = Vec::new();
                proof {
                    assert(props_view(v@) =~= props_view(props@));
                }
                Pat::Object(v)
            } else {
                let ghost pv = props_view(props@);
                let ghost st_in = sweep_view(*st);
                let ghost full = sw_props(k, pv, st_in);
                proof {
                    lemma_props_view_index(props@);
                    assert(pv.skip(0) =~= pv);
                }
                let mut out: Vec<ObjectPatProp> = Vec::new();
                let mut i: usize = 0;
                while i < props.len()
                    invariant
                        i <= props.len(),
                        st.kept_set() == k,
                        full.0 == props_view(out@) + sw_props(k, pv.skip(i as int), sweep_view(*st)).0,
                        full.1 == sw_props(k, pv.skip(i as int), sweep_view(*st)).1,
                    decreases props.len() - i,
                {
                    let ghost out0 = out@;
                    let ghost stv0 = sweep_view(*st);
                    proof {
                        assert(pv[i as int] == prop_view(props@[i as int]));
                        assert(pv.skip(i as int)[0] == pv[i as int]);
                        assert(pv.skip(i as int).drop_first() =~= pv.skip(i as int + 1));
                    }
                    match &props[i] {
                        ObjectPatProp::KeyValue(inner) => {
                            let q = sweep_pat(inner, st);
                            if pat_is_invalid(&q) {
                            } else {
                                let ghost qv = q@;
                                out.push(ObjectPatProp::KeyValue(Box::new(q)));
                                proof {
                                    lemma_props_view_push(
                                        out0,
                                        ObjectPatProp::KeyValue(Box::new(q)),
                                    );
                                    lemma_concat_push(
                                        props_view(out0),
                                        PropV::KeyValue(Box::new(qv)),
                                        sw_props(k, pv.skip(i as int + 1), sweep_view(*st)).0,
                                    );
                                }
                            }
                        },
                        ObjectPatProp::Assign { key, default } => {
                            if st.is_live(key.sym) {
                                let kept_prop = ObjectPatProp::Assign {
                                    key: copy_ident(key),
                                    default: copy_opt_expr(default),
                                };
                                proof {
                                    assert(prop_view(kept_prop) =~= pv[i as int]);
                                }
                                out.push(kept_prop);
                                proof {
                                    lemma_props_view_push(out0, kept_prop);
                                    lemma_concat_push(
                                        props_view(out0),
                                        pv[i as int],
                                        sw_props(k, pv.skip(i as int + 1), sweep_view(*st)).0,
                                    );
                                }
                            } else {
                                mark_candidate_opt(default, st);
                            }
                        },
                        ObjectPatProp::Rest(inner) => {
                            let q = sweep_pat(inner, st);
                            if pat_is_invalid(&q) {
                            } else {
                                let ghost qv = q@;
                                out.push(ObjectPatProp::Rest(Box::new(q)));
                                proof {
                                    lemma_props_view_push(out0, ObjectPatProp::Rest(Box::new(q)));
                                    lemma_concat_push(
                                        props_view(out0),
                                        PropV::Rest(Box::new(qv)),
                                        sw_props(k, pv.skip(i as int + 1), sweep_view(*st)).0,
                                    );
                                }
                            }
                        },
                    }
                    proof {
                        assert(sweep_view(*st) =~= sw_prop(k, pv[i as int], stv0).1);
                    }
                    i = i + 1;
                }
                proof {
                    assert(pv.skip(pv.len() as int) =~= Seq::<PropV>::empty());
                    assert(props_view(out@) + Seq::<PropV>::empty() =~= props_view(out@));
                    lemma_props_view_index(out@);
                }
                if out.len() == 0 {
                    Pat::Invalid
                } else {
                    Pat::Object(out)
                }
            }
        },
        Pat::Rest(inner) => {
            let q = sweep_pat(inner, st);
            if pat_is_invalid(&q) {
                Pat::Invalid
            } else {
                Pat::Rest(Box::new(q))
            }
        },
        Pat::Invalid => Pat::Invalid,
    }
}

/// Sweep one declarator.
fn sweep_declarator(d: &Declarator, st: &mut LivenessState) -> (r: Option<Declarator>)
    ensures
        opt_view(r) == sw_declarator(old(st).kept_set(), d@, sweep_view(*old(st))).0,
        final(st).other_set() == sw_declarator(old(st).kept_set(), d@, sweep_view(*old(st))).1.other,
        final(st).changed == sw_declarator(old(st).kept_set(), d@, sweep_view(*old(st))).1.changed,
        final(st).kept_set() == old(st).kept_set(),
{
    let q = sweep_pat(&d.name, st);
    if pat_is_invalid(&q) {
        mark_candidate_opt(&d.init, st);
        Option::None
    } else {
        Option::Some(Declarator { name: q, init: copy_opt_expr(&d.init) })
    }
}

/// Sweep a declarator list.
fn sweep_decls(decls: &Vec<Declarator>, st: &mut LivenessState) -> (r: Vec<Declarator>)
    ensures
        decls_view(r@) == sw_decls(old(st).kept_set(), decls_view(decls@), sweep_view(*old(st))).0,
        final(st).other_set() == sw_decls(
            old(st).kept_set(),
            decls_view(decls@),
            sweep_view(*old(st)),
        ).1.other,
        final(st).changed == sw_decls(
            old(st).kept_set(),
            decls_view(decls@),
            sweep_view(*old(st)),
        ).1.changed,
        final(st).kept_set() == old(st).kept_set(),
{
    let ghost k = st.kept_set();
    let ghost dv = decls_view(decls@);
    let ghost st_in = sweep_view(*st);
    let ghost full = sw_decls(k, dv, st_in);
    proof {
        lemma_decls_view_index(decls@);
        assert(dv.skip(0) =~= dv);
    }
    let mut out: Vec<Declarator> = Vec::new();
    let mut i: usize = 0;
    while i < decls.len()
        invariant
            i <= decls.len(),
            st.kept_set() == k,
            full.0 == decls_view(out@) + sw_decls(k, dv.skip(i as int), sweep_view(*st)).0,
            full.1 == sw_decls(k, dv.skip(i as int), sweep_view(*st)).1,
        decreases decls.len() - i,
    {
        let ghost out0 = out@;
        let ghost stv0 = sweep_view(*st);
        proof {
            assert(dv[i as int] == decls@[i as int]@);
            assert(dv.skip(i as int)[0] == dv[i as int]);
            assert(dv.skip(i as int).drop_first() =~= dv.skip(i as int + 1));
        }
        match sweep_declarator(&decls[i], st) {
            Option::None => {},
            Option::Some(q) => {
                let ghost qv = q@;
                out.push(q);
                proof {
                    lemma_decls_view_push(out0, q);
                    lemma_concat_push(
                        decls_view(out0),
                        qv,
                        sw_decls(k, dv.skip(i as int + 1), sweep_view(*st)).0,
                    );
                }
            },
        }
        proof {
            assert(sweep_view(*st) =~= sw_declarator(k, dv[i as int], stv0).1);
        }
        i = i + 1;
    }
    proof {
        assert(dv.skip(dv.len() as int) =~= Seq::<DeclaratorV>::empty());
        assert(decls_view(out@) + Seq::<DeclaratorV>::empty() =~= decls_view(out@));
    }
    out
}

/// Whether a named-export specifier's exported name is retained.
fn is_export_spec_retained(retain: &Vec<String>, s: &ExportSpecifier) -> (r: bool)
    ensures
        r == export_spec_retained(names_set(retain@), s@),
{
    match s {
        ExportSpecifier::Named { orig, exported } => {
            let n = match exported {
                Option::Some(n) => n,
                Option::None => &orig.name,
            };
            retains_name(retain, n)
        },
        ExportSpecifier::Namespace { name } => retains_name(retain, name),
        ExportSpecifier::Default { name } => retains_name(retain, name),
    }
}

/// A fresh copy of a named-export specifier.
fn copy_export_spec(s: &ExportSpecifier) -> (r: ExportSpecifier)
    ensures
        r@ == s@,
{
    match s {
        ExportSpecifier::Named { orig, exported } => ExportSpecifier::Named {
            orig: copy_ident(orig),
            exported: match exported {
                Option::Some(n) => Option::Some(n.clone()),
                Option::None => Option::None,
            },
        },
        ExportSpecifier::Namespace { name } => ExportSpecifier::Namespace { name: name.clone() },
        ExportSpecifier::Default { name } => ExportSpecifier::Default { name: name.clone() },
    }
}

/// Sweep one top-level item; `None` means the item is deleted.
fn sweep_item(it: &Item, retain: &Vec<String>, st: &mut LivenessState) -> (r: Option<Item>)
    ensures
        opt_view(r) == sw_item(
            names_set(retain@),
            old(st).kept_set(),
            it@,
            sweep_view(*old(st)),
        ).0,
        final(st).other_set() == sw_item(
            names_set(retain@),
            old(st).kept_set(),
            it@,
            sweep_view(*old(st)),
        ).1.other,
        final(st).changed == sw_item(
            names_set(retain@),
            old(st).kept_set(),
            it@,
            sweep_view(*old(st)),
        ).1.changed,
        final(st).kept_set() == old(st).kept_set(),
{
    let ghost rset = names_set(retain@);
    let ghost k = st.kept_set();
    match it {
        Item::Import { specifiers, source } => {
            if specifiers.len() == 0 {
                let r = Option::Some(
                    Item::Import { specifiers: Vec::new(), source: source.clone() },
                );
                proof {
                    assert(opt_view(r) =~= Option::Some(it@));
                }
                r
            } else {
                let ghost sv = import_specs_view(specifiers@);
                let ghost st_in = sweep_view(*st);
                let ghost full = sw_import_specs(k, st_in, sv);
                proof {
                    lemma_import_specs_view_index(specifiers@);
                    assert(sv.skip(0) =~= sv);
                }
                let mut out: Vec<ImportSpecifier> = Vec::new();
                let mut i: usize = 0;
                while i < specifiers.len()
                    invariant
                        i <= specifiers.len(),
                        *st == *old(st),
                        full == import_specs_view(out@) + sw_import_specs(
                            k,
                            st_in,
                            sv.skip(i as int),
                        ),
                    decreases specifiers.len() - i,
                {
                    let ghost out0 = out@;
                    proof {
                        assert(sv[i as int] == specifiers@[i as int]@);
                        assert(sv.skip(i as int)[0] == sv[i as int]);
                        assert(sv.skip(i as int).drop_first() =~= sv.skip(i as int + 1));
                    }
                    if st.is_live(specifiers[i].local.sym) {
                        let q = ImportSpecifier { local: copy_ident(&specifiers[i].local) };
                        proof {
                            assert(q@ == sv[i as int]);
                        }
                        out.push(q);
                        proof {
                            lemma_import_specs_view_push(out0, q);
                            lemma_concat_push(
                                import_specs_view(out0),
                                sv[i as int],
                                sw_import_specs(k, st_in, sv.skip(i as int + 1)),
                            );
                        }
                    }
                    i = i + 1;
                }
                proof {
                    assert(sv.skip(sv.len() as int) =~= Seq::<ImportSpecifierV>::empty());
                    assert(import_specs_view(out@) + Seq::<ImportSpecifierV>::empty()
                        =~= import_specs_view(out@));
                    lemma_import_specs_view_index(out@);
                }
                if out.len() < specifiers.len() {
                    st.changed = true;
                }
                if out.len() == 0 {
                    Option::None
                } else {
                    Option::Some(Item::Import { specifiers: out, source: source.clone() })
                }
            }
        },
        Item::ExportNamed { specifiers, src } => {
            let ghost sv = export_specs_view(specifiers@);
            let ghost full = sw_export_specs(rset, sv);
            proof {
                lemma_export_specs_view_index(specifiers@);
                assert(sv.skip(0) =~= sv);
            }
            let mut out: Vec<ExportSpecifier> = Vec::new();
            let mut i: usize = 0;
            while i < specifiers.len()
                invariant
                    i <= specifiers.len(),
                    *st == *old(st),
                    full == export_specs_view(out@) + sw_export_specs(rset, sv.skip(i as int)),
                decreases specifiers.len() - i,
            {
                let ghost out0 = out@;
                proof {
                    assert(sv[i as int] == specifiers@[i as int]@);
                    assert(sv.skip(i as int)[0] == sv[i as int]);
                    assert(sv.skip(i as int).drop_first() =~= sv.skip(i as int + 1));
                }
                let keep = is_export_spec_retained(retain, &specifiers[i]);
                if keep {
                    let q = copy_export_spec(&specifiers[i]);
                    out.push(q);
                    proof {
                        lemma_export_specs_view_push(out0, q);
                        lemma_concat_push(
                            export_specs_view(out0),
                            sv[i as int],
                            sw_export_specs(rset, sv.skip(i as int + 1)),
                        );
                    }
                }
                i = i + 1;
            }
            proof {
                assert(sv.skip(sv.len() as int) =~= Seq::<ExportSpecifierV>::empty());
                assert(export_specs_view(out@) + Seq::<ExportSpecifierV>::empty()
                    =~= export_specs_view(out@));
                lemma_export_specs_view_index(out@);
            }
            if out.len() < specifiers.len() {
                st.changed = true;
            }
            if out.len() == 0 {
                Option::None
            } else {
                let src2 = match src {
                    Option::Some(s) => Option::Some(s.clone()),
                    Option::None => Option::None,
                };
                Option::Some(Item::ExportNamed { specifiers: out, src: src2 })
            }
        },
        Item::ExportDefaultDecl { ident, body } => {
            if retains_default(retain) {
                let id2 = match ident {
                    Option::Some(i) => Option::Some(copy_ident(i)),
                    Option::None => Option::None,
                };
                let r = Option::Some(Item::ExportDefaultDecl { ident: id2, body: copy_expr(body) });
                proof {
                    assert(opt_view(r) =~= Option::Some(it@));
                }
                r
            } else {
                st.changed = true;
                Option::None
            }
        },
        Item::ExportDefaultExpr { expr } => {
            if retains_default(retain) {
                Option::Some(Item::ExportDefaultExpr { expr: copy_expr(expr) })
            } else {
                st.changed = true;
                Option::None
            }
        },
        Item::ExportAll { source } => Option::Some(Item::ExportAll { source: source.clone() }),
        Item::ExportDecl { decl } => match decl {
            Decl::Func { ident, body } => {
                if retains_name(retain, &ident.name) || st.is_live(ident.sym) {
                    Option::Some(
                        Item::ExportDecl {
                            decl: Decl::Func { ident: copy_ident(ident), body: copy_expr(body) },
                        },
                    )
                } else {
                    mark_candidate(body, st);
                    Option::None
                }
            },
            Decl::Class { ident, body } => {
                if retains_name(retain, &ident.name) || st.is_live(ident.sym) {
                    Option::Some(
                        Item::ExportDecl {
                            decl: Decl::Class { ident: copy_ident(ident), body: copy_expr(body) },
                        },
                    )
                } else {
                    mark_candidate(body, st);
                    Option::None
                }
            },
            Decl::Var { decls } => {
                let out = sweep_decls(decls, st);
                if out.len() == 0 {
                    proof {
                        lemma_decls_view_index(out@);
                    }
                    Option::None
                } else {
                    proof {
                        lemma_decls_view_index(out@);
                    }
                    Option::Some(Item::ExportDecl { decl: Decl::Var { decls: out } })
                }
            },
        },
        Item::Decl { decl } => match decl {
            Decl::Func { ident, body } => {
                if st.is_live(ident.sym) {
                    Option::Some(
                        Item::Decl {
                            decl: Decl::Func { ident: copy_ident(ident), body: copy_expr(body) },
                        },
                    )
                } else {
                    mark_candidate(body, st);
                    Option::None
                }
            },
            Decl::Class { ident, body } => {
                if st.is_live(ident.sym) {
                    Option::Some(
                        Item::Decl {
                            decl: Decl::Class { ident: copy_ident(ident), body: copy_expr(body) },
                        },
                    )
                } else {
                    mark_candidate(body, st);
                    Option::None
                }
            },
            Decl::Var { decls } => {
                let out = sweep_decls(decls, st);
                if out.len() == 0 {
                    proof {
                        lemma_decls_view_index(out@);
                    }
                    Option::None
                } else {
                    proof {
                        lemma_decls_view_index(out@);
                    }
                    Option::Some(Item::Decl { decl: Decl::Var { decls: out } })
                }
            },
        },
        Item::Stmt { .. } => {
            st.changed = true;
            Option::None
        },
    }
}

/// One whole sweep of the module.  Deletes what is dead under the current
/// state, records every deletion in `changed`, registers the references of
/// deleted subtrees into `used_by_other`, and normalizes an emptied module
/// to the single empty named export.
pub fn sweep(m: &Module, retain: &Vec<String>, st: &mut LivenessState) -> (r: Module)
    ensures
        r@ == sw_module(names_set(retain@), old(st).kept_set(), m@, sweep_view(*old(st))).0,
        final(st).other_set() == sw_module(
            names_set(retain@),
            old(st).kept_set(),
            m@,
            sweep_view(*old(st)),
        ).1.other,
        final(st).changed == sw_module(
            names_set(retain@),
            old(st).kept_set(),
            m@,
            sweep_view(*old(st)),
        ).1.changed,
        final(st).kept_set() == old(st).kept_set(),
{
    let ghost rset = names_set(retain@);
    let ghost k = st.kept_set();
    let ghost iv = m@;
    let ghost st_in = sweep_view(*st);
    let ghost full = sw_items(rset, k, iv, st_in);
    proof {
        lemma_items_view_index(m.items@);
        assert(iv.skip(0) =~= iv);
    }
    let mut out: Vec<Item> = Vec::new();
    let mut i: usize = 0;
    while i < m.items.len()
        invariant
            i <= m.items.len(),
            st.kept_set() == k,
            full.0 == items_view(out@) + sw_items(rset, k, iv.skip(i as int), sweep_view(*st)).0,
            full.1 == sw_items(rset, k, iv.skip(i as int), sweep_view(*st)).1,
        decreases m.items.len() - i,
    {
        let ghost out0 = out@;
        let ghost stv0 = sweep_view(*st);
        proof {
            assert(iv[i as int] == m.items@[i as int]@);
            assert(iv.skip(i as int)[0] == iv[i as int]);
            assert(iv.skip(i as int).drop_first() =~= iv.skip(i as int + 1));
        }
        match sweep_item(&m.items[i], retain, st) {
            Option::None => {},
            Option::Some(q) => {
                let ghost qv = q@;
                out.push(q);
                proof {
                    lemma_items_view_push(out0, q);
                    lemma_concat_push(
                        items_view(out0),
                        qv,
                        sw_items(rset, k, iv.skip(i as int + 1), sweep_view(*st)).0,
                    );
                }
            },
        }
        proof {
            assert(sweep_view(*st) =~= sw_item(rset, k, iv[i as int], stv0).1);
        }
        i = i + 1;
    }
    proof {
        assert(iv.skip(iv.len() as int) =~= Seq::<ItemV>::empty());
        assert(items_view(out@) + Seq::<ItemV>::empty() =~= items_view(out@));
        lemma_items_view_index(out@);
    }
    let mut out = out;
    if out.len() == 0 {
        let ghost before = out@;
        let extra = Item::ExportNamed { specifiers: Vec::new(), src: Option::None };
        let ghost extra_v = extra;
        out.push(extra);
        proof {
            lemma_items_view_push(before, extra_v);
            assert(items_view(out@) =~= seq![empty_export_item()]);
        }
    }
    Module { items: out }
}

} // verus!
