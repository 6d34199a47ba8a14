//! The reference analyzer.
//!
//! One pass walks the module top to bottom and records every identifier
//! reference into one of the two liveness sets: references made inside a
//! retained ("kept") region go to `used_by_kept`, all others go to
//! `used_by_other`.  A region is kept when its export name is retained: a
//! retained named-export specifier, a default export while `"default"` is
//! retained, or an export declaration whose function/class name (or first
//! variable declarator name) is retained.  Inside a kept region the binding
//! names themselves are recorded too, so a retained declaration keeps its own
//! bindings alive from the very first pass; outside one, binding names are
//! not self-referencing.
//!
//! The spec functions below give the two sets item by item; `analyze` is the
//! executable pass, proved to produce exactly those sets.

use vstd::prelude::*;
use crate::ast::{
    lemma_decls_view_index, lemma_export_specs_view_index, lemma_items_view_index,
    lemma_props_view_index, lemma_slots_view_index, pat_view, slot_view, slots_view, props_view,
    prop_view, decls_view, items_view, export_specs_view, Decl, DeclV, Declarator, DeclaratorV,
    ExportSpecifier, ExportSpecifierV, Expr, ExprV, Item, ItemV, Module, ObjectPatProp, Pat, PatV,
    PropV,
};
use crate::liveness::{
    default_name, idset, lemma_idset_push, names_set, retains_default, retains_name,
    LivenessState,
};

verus! {

// ----------------------------------------------------------------------------
// Binding identities and expression references of patterns and declarations.
// ----------------------------------------------------------------------------

/// The symbol identities bound by a pattern.
pub open spec fn pat_binders(p: PatV) -> Set<u64>
    decreases p,
{
    match p {
        PatV::Ident(i) => Set::empty().insert(i.sym),
        PatV::Array(slots) => slots_binders(slots),
        PatV::Object(props) => props_binders(props),
        PatV::Rest(inner) => pat_binders(*inner),
        PatV::Invalid => Set::empty(),
    }
}

pub open spec fn slots_binders(s: Seq<Option<PatV>>) -> Set<u64>
    decreases s,
{
    if s.len() == 0 {
        Set::empty()
    } else {
        slots_binders(s.drop_last()) + slot_binders(s.last())
    }
}

pub open spec fn slot_binders(s: Option<PatV>) -> Set<u64>
    decreases s,
{
    match s {
        Option::None => Set::empty(),
        Option::Some(p) => pat_binders(p),
    }
}

pub open spec fn props_binders(s: Seq<PropV>) -> Set<u64>
    decreases s,
{
    if s.len() == 0 {
        Set::empty()
    } else {
        props_binders(s.drop_last()) + prop_binders(s.last())
    }
}

pub open spec fn prop_binders(p: PropV) -> Set<u64>
    decreases p,
{
    match p {
        PropV::KeyValue(inner) => pat_binders(*inner),
        PropV::Assign { key, .. } => Set::empty().insert(key.sym),
        PropV::Rest(inner) => pat_binders(*inner),
    }
}

/// The identities referenced by the default-value expressions inside a
/// pattern (shorthand `{ name = default }` properties).
pub open spec fn pat_refs(p: PatV) -> Set<u64>
    decreases p,
{
    match p {
        PatV::Ident(_) => Set::empty(),
        PatV::Array(slots) => slots_refs(slots),
        PatV::Object(props) => props_refs(props),
        PatV::Rest(inner) => pat_refs(*inner),
        PatV::Invalid => Set::empty(),
    }
}

pub open spec fn slots_refs(s: Seq<Option<PatV>>) -> Set<u64>
    decreases s,
{
    if s.len() == 0 {
        Set::empty()
    } else {
        slots_refs(s.drop_last()) + slot_refs(s.last())
    }
}

pub open spec fn slot_refs(s: Option<PatV>) -> Set<u64>
    decreases s,
{
    match s {
        Option::None => Set::empty(),
        Option::Some(p) => pat_refs(p),
    }
}

pub open spec fn props_refs(s: Seq<PropV>) -> Set<u64>
    decreases s,
{
    if s.len() == 0 {
        Set::empty()
    } else {
        props_refs(s.drop_last()) + prop_refs(s.last())
    }
}

pub open spec fn prop_refs(p: PropV) -> Set<u64>
    decreases p,
{
    match p {
        PropV::KeyValue(inner) => pat_refs(*inner),
        PropV::Assign { default, .. } => opt_expr_refs(default),
        PropV::Rest(inner) => pat_refs(*inner),
    }
}

pub open spec fn opt_expr_refs(e: Option<ExprV>) -> Set<u64> {
    match e {
        Option::None => Set::empty(),
        Option::Some(e) => idset(e.refs),
    }
}

/// The identities a declarator binds.
pub open spec fn declarator_binders(d: DeclaratorV) -> Set<u64> {
    pat_binders(d.name)
}

/// The identities a declarator references: its pattern defaults and its
/// initializer.
pub open spec fn declarator_refs(d: DeclaratorV) -> Set<u64> {
    pat_refs(d.name) + opt_expr_refs(d.init)
}

pub open spec fn decls_binders(s: Seq<DeclaratorV>) -> Set<u64>
    decreases s,
{
    if s.len() == 0 {
        Set::empty()
    } else {
        decls_binders(s.drop_last()) + declarator_binders(s.last())
    }
}

pub open spec fn decls_refs(s: Seq<DeclaratorV>) -> Set<u64>
    decreases s,
{
    if s.len() == 0 {
        Set::empty()
    } else {
        decls_refs(s.drop_last()) + declarator_refs(s.last())
    }
}

/// The identities a declaration binds.
pub open spec fn decl_binders(d: DeclV) -> Set<u64> {
    match d {
        DeclV::Func { ident, .. } => Set::empty().insert(ident.sym),
        DeclV::Class { ident, .. } => Set::empty().insert(ident.sym),
        DeclV::Var { decls } => decls_binders(decls),
    }
}

/// The identities a declaration references (bodies, initializers, defaults).
pub open spec fn decl_refs(d: DeclV) -> Set<u64> {
    match d {
        DeclV::Func { body, .. } => idset(body.refs),
        DeclV::Class { body, .. } => idset(body.refs),
        DeclV::Var { decls } => decls_refs(decls),
    }
}

// ----------------------------------------------------------------------------
// Which regions are kept.
// ----------------------------------------------------------------------------

/// Whether an exported declaration is retained by name: a function or class
/// whose name is in the retain set, or a variable declaration whose first
/// declarator binds a plain identifier whose name is in the retain set.
pub open spec fn decl_retained(r: Set<Seq<char>>, d: DeclV) -> bool {
    match d {
        DeclV::Func { ident, .. } => r.contains(ident.name),
        DeclV::Class { ident, .. } => r.contains(ident.name),
        DeclV::Var { decls } => decls.len() > 0 && match decls[0].name {
            PatV::Ident(i) => r.contains(i.name),
            _ => false,
        },
    }
}

/// The name under which a named-export specifier exports.
pub open spec fn export_spec_name(s: ExportSpecifierV) -> Seq<char> {
    match s {
        ExportSpecifierV::Named { orig, exported } => match exported {
            Option::Some(n) => n,
            Option::None => orig.name,
        },
        ExportSpecifierV::Namespace { name } => name,
        ExportSpecifierV::Default { name } => name,
    }
}

/// Whether a named-export specifier is retained.
pub open spec fn export_spec_retained(r: Set<Seq<char>>, s: ExportSpecifierV) -> bool {
    r.contains(export_spec_name(s))
}

/// The identities referenced by the retained specifiers of a named export:
/// a retained `export { orig }` / `export { orig as alias }` references its
/// local `orig` binding.
pub open spec fn export_specs_kept_refs(r: Set<Seq<char>>, s: Seq<ExportSpecifierV>) -> Set<u64>
    decreases s,
{
    if s.len() == 0 {
        Set::empty()
    } else {
        export_specs_kept_refs(r, s.drop_last()) + export_spec_kept_refs(r, s.last())
    }
}

pub open spec fn export_spec_kept_refs(r: Set<Seq<char>>, s: ExportSpecifierV) -> Set<u64> {
    match s {
        ExportSpecifierV::Named { orig, .. } => if export_spec_retained(r, s) {
            Set::empty().insert(orig.sym)
        } else {
            Set::empty()
        },
        _ => Set::empty(),
    }
}

// ----------------------------------------------------------------------------
// The two reference sets, item by item.
// ----------------------------------------------------------------------------

/// The identities one item contributes to `used_by_kept`.
pub open spec fn item_kept_refs(r: Set<Seq<char>>, it: ItemV) -> Set<u64> {
    match it {
        ItemV::Import { .. } => Set::empty(),
        ItemV::ExportNamed { specifiers, .. } => export_specs_kept_refs(r, specifiers),
        ItemV::ExportDefaultDecl { ident, body } => if r.contains(default_name()) {
            (match ident {
                Option::Some(i) => Set::empty().insert(i.sym),
                Option::None => Set::empty(),
            }) + idset(body.refs)
        } else {
            Set::empty()
        },
        ItemV::ExportDefaultExpr { expr } => if r.contains(default_name()) {
            idset(expr.refs)
        } else {
            Set::empty()
        },
        ItemV::ExportAll { .. } => Set::empty(),
        ItemV::ExportDecl { decl } => if decl_retained(r, decl) {
            decl_binders(decl) + decl_refs(decl)
        } else {
            Set::empty()
        },
        ItemV::Decl { .. } => Set::empty(),
        ItemV::Stmt { .. } => Set::empty(),
    }
}

/// The identities one item contributes to `used_by_other`.
pub open spec fn item_other_refs(r: Set<Seq<char>>, it: ItemV) -> Set<u64> {
    match it {
        ItemV::Import { .. } => Set::empty(),
        ItemV::ExportNamed { .. } => Set::empty(),
        ItemV::ExportDefaultDecl { .. } => Set::empty(),
        ItemV::ExportDefaultExpr { .. } => Set::empty(),
        ItemV::ExportAll { .. } => Set::empty(),
        ItemV::ExportDecl { decl } => if decl_retained(r, decl) {
            Set::empty()
        } else {
            decl_refs(decl)
        },
        ItemV::Decl { decl } => decl_refs(decl),
        ItemV::Stmt { expr } => idset(expr.refs),
    }
}

/// Everything the module's retained regions reference.
pub open spec fn kept_refs(r: Set<Seq<char>>, items: Seq<ItemV>) -> Set<u64>
    decreases items,
{
    if items.len() == 0 {
        Set::empty()
    } else {
        kept_refs(r, items.drop_last()) + item_kept_refs(r, items.last())
    }
}

/// Everything the module's other regions reference.
pub open spec fn other_refs(r: Set<Seq<char>>, items: Seq<ItemV>) -> Set<u64>
    decreases items,
{
    if items.len() == 0 {
        Set::empty()
    } else {
        other_refs(r, items.drop_last()) + item_other_refs(r, items.last())
    }
}

// ----------------------------------------------------------------------------
// Prefix unrolling of the fold functions, for the loops below.
// ----------------------------------------------------------------------------

proof fn lemma_slots_prefix(s: Seq<Option<PatV>>, i: int)
    requires
        0 <= i < s.len(),
    ensures
        slots_binders(s.subrange(0, i + 1)) == slots_binders(s.subrange(0, i)) + slot_binders(
            s[i],
        ),
        slots_refs(s.subrange(0, i + 1)) == slots_refs(s.subrange(0, i)) + slot_refs(s[i]),
{
    assert(s.subrange(0, i + 1).drop_last() =~= s.subrange(0, i));
    assert(s.subrange(0, i + 1).last() == s[i]);
}

proof fn lemma_props_prefix(s: Seq<PropV>, i: int)
    requires
        0 <= i < s.len(),
    ensures
        props_binders(s.subrange(0, i + 1)) == props_binders(s.subrange(0, i)) + prop_binders(
            s[i],
        ),
        props_refs(s.subrange(0, i + 1)) == props_refs(s.subrange(0, i)) + prop_refs(s[i]),
{
    assert(s.subrange(0, i + 1).drop_last() =~= s.subrange(0, i));
    assert(s.subrange(0, i + 1).last() == s[i]);
}

proof fn lemma_decls_prefix(s: Seq<DeclaratorV>, i: int)
    requires
        0 <= i < s.len(),
    ensures
        decls_binders(s.subrange(0, i + 1)) == decls_binders(s.subrange(0, i))
            + declarator_binders(s[i]),
        decls_refs(s.subrange(0, i + 1)) == decls_refs(s.subrange(0, i)) + declarator_refs(s[i]),
{
    assert(s.subrange(0, i + 1).drop_last() =~= s.subrange(0, i));
    assert(s.subrange(0, i + 1).last() == s[i]);
}

proof fn lemma_export_specs_kept_prefix(r: Set<Seq<char>>, s: Seq<ExportSpecifierV>, i: int)
    requires
        0 <= i < s.len(),
    ensures
        export_specs_kept_refs(r, s.subrange(0, i + 1)) == export_specs_kept_refs(
            r,
            s.subrange(0, i),
        ) + export_spec_kept_refs(r, s[i]),
{
    assert(s.subrange(0, i + 1).drop_last() =~= s.subrange(0, i));
    assert(s.subrange(0, i + 1).last() == s[i]);
}

proof fn lemma_refs_prefix(r: Set<Seq<char>>, s: Seq<ItemV>, i: int)
    requires
        0 <= i < s.len(),
    ensures
        kept_refs(r, s.subrange(0, i + 1)) == kept_refs(r, s.subrange(0, i)) + item_kept_refs(
            r,
            s[i],
        ),
        other_refs(r, s.subrange(0, i + 1)) == other_refs(r, s.subrange(0, i)) + item_other_refs(
            r,
            s[i],
        ),
{
    assert(s.subrange(0, i + 1).drop_last() =~= s.subrange(0, i));
    assert(s.subrange(0, i + 1).last() == s[i]);
}

// ----------------------------------------------------------------------------
// The executable analyzer.
// ----------------------------------------------------------------------------

/// Record every reference an expression makes into the kept set (inside a
/// retained region) or the other set.
pub(crate) fn record_refs(e: &Expr, kept: bool, st: &mut LivenessState)
    ensures
        kept ==> final(st).kept_set() == old(st).kept_set() + idset(e.refs@) && final(st).other_set() == old(st).other_set(),
        !kept ==> final(st).other_set() == old(st).other_set() + idset(e.refs@) && final(st).kept_set() == old(st).kept_set(),
        final(st).changed == old(st).changed,
{
    let ghost st0 = *st;
    let mut i: usize = 0;
    while i < e.refs.len()
        invariant
            i <= e.refs.len(),
            kept ==> st.kept_set() == st0.kept_set() + idset(e.refs@.subrange(0, i as int))
                && st.other_set() == st0.other_set(),
            !kept ==> st.other_set() == st0.other_set() + idset(e.refs@.subrange(0, i as int))
                && st.kept_set() == st0.kept_set(),
            st.changed == st0.changed,
        decreases e.refs.len() - i,
    {
        let x = e.refs[i];
        if kept {
            st.add_kept(x);
        } else {
            st.add_other(x);
        }
        proof {
            assert(e.refs@.subrange(0, i as int + 1) =~= e.refs@.subrange(0, i as int).push(
                e.refs@[i as int],
            ));
            lemma_idset_push(e.refs@.subrange(0, i as int), e.refs@[i as int]);
            if kept {
                assert(st.kept_set() =~= st0.kept_set() + idset(e.refs@.subrange(0, i as int + 1)));
            } else {
                assert(st.other_set() =~= st0.other_set() + idset(
                    e.refs@.subrange(0, i as int + 1),
                ));
            }
        }
        i = i + 1;
    }
    proof {
        assert(e.refs@.subrange(0, e.refs@.len() as int) =~= e.refs@);
    }
}

/// Record an optional expression the same way.
pub(crate) fn record_opt_refs(e: &Option<Expr>, kept: bool, st: &mut LivenessState)
    ensures
        kept ==> final(st).kept_set() == old(st).kept_set() + opt_expr_refs(oev(e)) && final(st).other_set() == old(st).other_set(),
        !kept ==> final(st).other_set() == old(st).other_set() + opt_expr_refs(oev(e)) && final(st).kept_set() == old(st).kept_set(),
        final(st).changed == old(st).changed,
{
    match e {
        Option::Some(e) => {
            record_refs(e, kept, st);
        },
        Option::None => {
            proof {
                if kept {
                    assert(st.kept_set() =~= st.kept_set() + opt_expr_refs(oev(e)));
                } else {
                    assert(st.other_set() =~= st.other_set() + opt_expr_refs(oev(e)));
                }
            }
        },
    }
}

/// The view of an optional expression.
pub open spec fn oev(e: &Option<Expr>) -> Option<ExprV> {
    match *e {
        Option::None => Option::None,
        Option::Some(e) => Option::Some(e@),
    }
}

/// Record a binding pattern: inside a kept region both its binding names and
/// its default-value references, outside one only the default-value
/// references (binding names are not self-referencing there).
fn record_pat(p: &Pat, kept: bool, st: &mut LivenessState)
    ensures
        kept ==> final(st).kept_set() == old(st).kept_set() + pat_binders(p@) + pat_refs(p@)
            && final(st).other_set() == old(st).other_set(),
        !kept ==> final(st).other_set() == old(st).other_set() + pat_refs(p@) && final(st).kept_set() == old(st).kept_set(),
        final(st).changed == old(st).changed,
    decreases *p,
{
    match p {
        Pat::Ident(id) => {
            if kept {
                st.add_kept(id.sym);
                proof {
                    assert(st.kept_set() =~= old(st).kept_set() + pat_binders(p@) + pat_refs(p@));
                }
            } else {
                proof {
                    assert(st.other_set() =~= old(st).other_set() + pat_refs(p@));
                }
            }
        },
        Pat::Array(slots) => {
            let ghost st0 = *st;
            let ghost sv = slots_view(slots@);
            proof {
                lemma_slots_view_index(slots@);
            }
            let mut i: usize = 0;
            while i < slots.len()
                invariant
                    i <= slots.len(),
                    sv == slots_view(slots@),
                    sv.len() == slots@.len(),
                    forall|j: int| 0 <= j < slots@.len() ==> sv[j] == slot_view(slots@[j]),
                    kept ==> st.kept_set() == st0.kept_set() + slots_binders(
                        sv.subrange(0, i as int),
                    ) + slots_refs(sv.subrange(0, i as int)) && st.other_set() == st0.other_set(),
                    !kept ==> st.other_set() == st0.other_set() + slots_refs(
                        sv.subrange(0, i as int),
                    ) && st.kept_set() == st0.kept_set(),
                    st.changed == st0.changed,
                decreases slots.len() - i,
            {
                match &slots[i] {
                    Option::Some(sub) => {
                        proof {
                            assert(decreases_to!(*p => *sub)) by {
                                assert(*p == Pat::Array(*slots));
                                assert(slots@[i as int] == Option::Some(*sub));
                                assert(decreases_to!(*p => slots@));
                                assert(decreases_to!(slots@ => slots@[i as int]));
                                assert(decreases_to!(slots@[i as int] => *sub));
                            }
                        }
                        record_pat(sub, kept, st);
                    },
                    Option::None => {},
                }
                proof {
                    lemma_slots_prefix(sv, i as int);
                    if kept {
                        assert(st.kept_set() =~= st0.kept_set() + slots_binders(
                            sv.subrange(0, i as int + 1),
                        ) + slots_refs(sv.subrange(0, i as int + 1)));
                    } else {
                        assert(st.other_set() =~= st0.other_set() + slots_refs(
                            sv.subrange(0, i as int + 1),
                        ));
                    }
                }
                i = i + 1;
            }
            proof {
                assert(sv.subrange(0, sv.len() as int) =~= sv);
            }
        },
        Pat::Object(props) => {
            let ghost st0 = *st;
            let ghost pv = props_view(props@);
            proof {
                lemma_props_view_index(props@);
            }
            let mut i: usize = 0;
            while i < props.len()
                invariant
                    i <= props.len(),
                    pv == props_view(props@),
                    pv.len() == props@.len(),
                    forall|j: int| 0 <= j < props@.len() ==> pv[j] == prop_view(props@[j]),
                    kept ==> st.kept_set() == st0.kept_set() + props_binders(
                        pv.subrange(0, i as int),
                    ) + props_refs(pv.subrange(0, i as int)) && st.other_set() == st0.other_set(),
                    !kept ==> st.other_set() == st0.other_set() + props_refs(
                        pv.subrange(0, i as int),
                    ) && st.kept_set() == st0.kept_set(),
                    st.changed == st0.changed,
                decreases props.len() - i,
            {
                match &props[i] {
                    ObjectPatProp::KeyValue(inner) => {
                        record_pat(inner, kept, st);
                    },
                    ObjectPatProp::Assign { key, default } => {
                        if kept {
                            st.add_kept(key.sym);
                        }
                        record_opt_refs(default, kept, st);
                    },
                    ObjectPatProp::Rest(inner) => {
                        record_pat(inner, kept, st);
                    },
                }
                proof {
                    lemma_props_prefix(pv, i as int);
                    if kept {
                        assert(st.kept_set() =~= st0.kept_set() + props_binders(
                            pv.subrange(0, i as int + 1),
                        ) + props_refs(pv.subrange(0, i as int + 1)));
                    } else {
                        assert(st.other_set() =~= st0.other_set() + props_refs(
                            pv.subrange(0, i as int + 1),
                        ));
                    }
                }
                i = i + 1;
            }
            proof {
                assert(pv.subrange(0, pv.len() as int) =~= pv);
            }
        },
        Pat::Rest(inner) => {
            record_pat(inner, kept, st);
            proof {
                if kept {
                    assert(st.kept_set() =~= old(st).kept_set() + pat_binders(p@) + pat_refs(p@));
                }
            }
        },
        Pat::Invalid => {
            proof {
                if kept {
                    assert(st.kept_set() =~= st.kept_set() + pat_binders(p@) + pat_refs(p@));
                } else {
                    assert(st.other_set() =~= st.other_set() + pat_refs(p@));
                }
            }
        },
    }
}

/// Record a variable declarator: its pattern, then its initializer.
fn record_declarator(d: &Declarator, kept: bool, st: &mut LivenessState)
    ensures
        kept ==> final(st).kept_set() == old(st).kept_set() + declarator_binders(d@)
            + declarator_refs(d@) && final(st).other_set() == old(st).other_set(),
        !kept ==> final(st).other_set() == old(st).other_set() + declarator_refs(d@) && final(st).kept_set() == old(st).kept_set(),
        final(st).changed == old(st).changed,
{
    record_pat(&d.name, kept, st);
    record_opt_refs(&d.init, kept, st);
    proof {
        if kept {
            assert(st.kept_set() =~= old(st).kept_set() + declarator_binders(d@)
                + declarator_refs(d@));
        } else {
            assert(st.other_set() =~= old(st).other_set() + declarator_refs(d@));
        }
    }
}

/// Record a declaration: inside a kept region its own name, bindings and all
/// its references; outside one only its references.
fn record_decl(d: &Decl, kept: bool, st: &mut LivenessState)
    ensures
        kept ==> final(st).kept_set() == old(st).kept_set() + decl_binders(d@) + decl_refs(d@)
            && final(st).other_set() == old(st).other_set(),
        !kept ==> final(st).other_set() == old(st).other_set() + decl_refs(d@) && final(st).kept_set() == old(st).kept_set(),
        final(st).changed == old(st).changed,
{
    match d {
        Decl::Func { ident, body } => {
            if kept {
                st.add_kept(ident.sym);
            }
            record_refs(body, kept, st);
            proof {
                if kept {
                    assert(st.kept_set() =~= old(st).kept_set() + decl_binders(d@) + decl_refs(
                        d@,
                    ));
                }
            }
        },
        Decl::Class { ident, body } => {
            if kept {
                st.add_kept(ident.sym);
            }
            record_refs(body, kept, st);
            proof {
                if kept {
                    assert(st.kept_set() =~= old(st).kept_set() + decl_binders(d@) + decl_refs(
                        d@,
                    ));
                }
            }
        },
        Decl::Var { decls } => {
            let ghost st0 = *st;
            let ghost dv = decls_view(decls@);
            proof {
                lemma_decls_view_index(decls@);
            }
            let mut i: usize = 0;
            while i < decls.len()
                invariant
                    i <= decls.len(),
                    dv == decls_view(decls@),
                    dv.len() == decls@.len(),
                    forall|j: int| 0 <= j < decls@.len() ==> dv[j] == decls@[j]@,
                    kept ==> st.kept_set() == st0.kept_set() + decls_binders(
                        dv.subrange(0, i as int),
                    ) + decls_refs(dv.subrange(0, i as int)) && st.other_set() == st0.other_set(),
                    !kept ==> st.other_set() == st0.other_set() + decls_refs(
                        dv.subrange(0, i as int),
                    ) && st.kept_set() == st0.kept_set(),
                    st.changed == st0.changed,
                decreases decls.len() - i,
            {
                record_declarator(&decls[i], kept, st);
                proof {
                    lemma_decls_prefix(dv, i as int);
                    if kept {
                        assert(st.kept_set() =~= st0.kept_set() + decls_binders(
                            dv.subrange(0, i as int + 1),
                        ) + decls_refs(dv.subrange(0, i as int + 1)));
                    } else {
                        assert(st.other_set() =~= st0.other_set() + decls_refs(
                            dv.subrange(0, i as int + 1),
                        ));
                    }
                }
                i = i + 1;
            }
            proof {
                assert(dv.subrange(0, dv.len() as int) =~= dv);
            }
        },
    }
}

/// Whether an exported declaration is retained by name.
fn is_decl_retained(retain: &Vec<String>, d: &Decl) -> (r: bool)
    ensures
        r == decl_retained(names_set(retain@), d@),
{
    match d {
        Decl::Func { ident, body } => {
            proof {
                assert(d@ == DeclV::Func { ident: ident@, body: body@ });
            }
            retains_name(retain, &ident.name)
        },
        Decl::Class { ident, body } => {
            proof {
                assert(d@ == DeclV::Class { ident: ident@, body: body@ });
            }
            retains_name(retain, &ident.name)
        },
        Decl::Var { decls } => {
            proof {
                lemma_decls_view_index(decls@);
                assert(d@ == DeclV::Var { decls: decls_view(decls@) });
            }
            if decls.len() == 0 {
                false
            } else {
                proof {
                    assert(decls_view(decls@)[0] == decls@[0]@);
                    assert(decls@[0]@.name == pat_view(decls@[0].name));
                }
                match &decls[0].name {
                    Pat::Ident(i) => {
                        proof {
                            assert(decls@[0].name == Pat::Ident(*i));
                            assert(pat_view(decls@[0].name) == PatV::Ident(i@));
                        }
                        retains_name(retain, &i.name)
                    },
                    Pat::Array(..) => false,
                    Pat::Object(..) => false,
                    Pat::Rest(..) => false,
                    Pat::Invalid => false,
                }
            }
        },
    }
}

/// One analyzer pass: augments `used_by_kept` with everything the retained
/// regions reference, and rebuilds `used_by_other` from scratch as everything
/// the rest of the module references.
pub fn analyze(m: &Module, retain: &Vec<String>, st: &mut LivenessState)
    ensures
        final(st).kept_set() == old(st).kept_set() + kept_refs(names_set(retain@), m@),
        final(st).other_set() == other_refs(names_set(retain@), m@),
        final(st).changed == old(st).changed,
{
    let ghost r = names_set(retain@);
    st.used_by_other = Vec::new();
    proof {
        assert(st.other_set() =~= Set::<u64>::empty());
        lemma_items_view_index(m.items@);
    }
    let ghost st0 = *st;
    let ghost iv = m@;
    let mut i: usize = 0;
    while i < m.items.len()
        invariant
            i <= m.items.len(),
            iv == items_view(m.items@),
            iv.len() == m.items@.len(),
            forall|j: int| 0 <= j < m.items@.len() ==> iv[j] == m.items@[j]@,
            st.kept_set() == st0.kept_set() + kept_refs(r, iv.subrange(0, i as int)),
            st.other_set() == st0.other_set() + other_refs(r, iv.subrange(0, i as int)),
            st.changed == st0.changed,
        decreases m.items.len() - i,
    {
        match &m.items[i] {
            Item::Import { .. } => {},
            Item::ExportAll { .. } => {},
            Item::Stmt { expr } => {
                record_refs(expr, false, st);
            },
            Item::ExportNamed { specifiers, .. } => {
                let ghost stn = *st;
                let ghost ev = export_specs_view(specifiers@);
                proof {
                    lemma_export_specs_view_index(specifiers@);
                }
                let mut k: usize = 0;
                while k < specifiers.len()
                    invariant
                        k <= specifiers.len(),
                        ev == export_specs_view(specifiers@),
                        ev.len() == specifiers@.len(),
                        forall|j: int| 0 <= j < specifiers@.len() ==> ev[j] == specifiers@[j]@,
                        st.kept_set() == stn.kept_set() + export_specs_kept_refs(
                            r,
                            ev.subrange(0, k as int),
                        ),
                        st.other_set() == stn.other_set(),
                        st.changed == stn.changed,
                    decreases specifiers.len() - k,
                {
                    match &specifiers[k] {
                        ExportSpecifier::Named { orig, exported } => {
                            let name = match exported {
                                Option::Some(n) => n,
                                Option::None => &orig.name,
                            };
                            if retains_name(retain, name) {
                                st.add_kept(orig.sym);
                            }
                        },
                        _ => {},
                    }
                    proof {
                        lemma_export_specs_kept_prefix(r, ev, k as int);
                        assert(st.kept_set() =~= stn.kept_set() + export_specs_kept_refs(
                            r,
                            ev.subrange(0, k as int + 1),
                        ));
                    }
                    k = k + 1;
                }
                proof {
                    assert(ev.subrange(0, ev.len() as int) =~= ev);
                }
            },
            Item::ExportDefaultDecl { ident, body } => {
                if retains_default(retain) {
                    match ident {
                        Option::Some(id) => {
                            st.add_kept(id.sym);
                        },
                        Option::None => {},
                    }
                    record_refs(body, true, st);
                }
            },
            Item::ExportDefaultExpr { expr } => {
                if retains_default(retain) {
                    record_refs(expr, true, st);
                }
            },
            Item::ExportDecl { decl } => {
                let k = is_decl_retained(retain, decl);
                record_decl(decl, k, st);
            },
            Item::Decl { decl } => {
                record_decl(decl, false, st);
            },
        }
        proof {
            lemma_refs_prefix(r, iv, i as int);
            assert(st.kept_set() =~= st0.kept_set() + kept_refs(r, iv.subrange(0, i as int + 1)));
            assert(st.other_set() =~= st0.other_set() + other_refs(
                r,
                iv.subrange(0, i as int + 1),
            ));
        }
        i = i + 1;
    }
    proof {
        assert(iv.subrange(0, iv.len() as int) =~= iv);
        assert(st.other_set() =~= other_refs(r, iv));
    }
}

} // verus!
