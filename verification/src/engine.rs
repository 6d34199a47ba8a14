//! The fixed-point driver.
//!
//! `eliminate` repeatedly runs the analyzer and then the sweeper until a
//! pass deletes nothing.  Termination is by the module size (items,
//! specifiers, declarators and pattern nodes): the lemmas below show that a
//! sweep never increases it and strictly decreases it whenever it reports a
//! change, so the number of passes is bounded by the size of the module.

use vstd::prelude::*;
use crate::ast::{
    declarator_size, decls_size, item_size, lemma_decls_size_cons, lemma_module_size_cons,
    lemma_props_size_cons, lemma_slots_size_cons, module_size, pat_size, prop_size, props_size,
    slots_size, DeclV, DeclaratorV, ExportSpecifierV, ImportSpecifierV, ItemV, Module,
    PatV, PropV,
};
use crate::analysis::{analyze, kept_refs, other_refs};
use crate::liveness::{names_set, LivenessState};
use crate::sweep::{
    sw_decls, sw_declarator, sw_export_specs, sw_import_specs, sw_item, sw_items, sw_module,
    sw_pat, sw_prop, sw_props, sw_slots, sweep, sweep_view, SweepSt,
};

verus! {

// ----------------------------------------------------------------------------
// A sweep never grows the module, and shrinks it whenever it reports a
// change.
// ----------------------------------------------------------------------------

pub(crate) proof fn lemma_sw_pat_size(kept: Set<u64>, p: PatV, st: SweepSt)
    ensures
        ({
            let (q, st1) = sw_pat(kept, p, st);
            &&& pat_size(q) <= pat_size(p)
            &&& (st1.changed ==> st.changed || pat_size(q) < pat_size(p))
            &&& (st.changed ==> st1.changed)
        }),
    decreases p,
{
    match p {
        PatV::Ident(_) => {},
        PatV::Array(slots) => {
            if slots.len() > 0 {
                lemma_sw_slots_size(kept, slots, st);
            }
        },
        PatV::Object(props) => {
            if props.len() > 0 {
                lemma_sw_props_size(kept, props, st);
            }
        },
        PatV::Rest(inner) => {
            lemma_sw_pat_size(kept, *inner, st);
        },
        PatV::Invalid => {},
    }
}

pub(crate) proof fn lemma_sw_slots_size(kept: Set<u64>, s: Seq<Option<PatV>>, st: SweepSt)
    ensures
        ({
            let (out, st2) = sw_slots(kept, s, st);
            &&& slots_size(out) <= slots_size(s)
            &&& (st2.changed ==> st.changed || slots_size(out) < slots_size(s))
            &&& (st.changed ==> st2.changed)
        }),
    decreases s,
{
    if s.len() > 0 {
        assert(s =~= seq![s[0]] + s.drop_first());
        lemma_slots_size_cons(s[0], s.drop_first());
        match s[0] {
            Option::None => {
                lemma_sw_slots_size(kept, s.drop_first(), st);
                let (rest, st1) = sw_slots(kept, s.drop_first(), st);
                lemma_slots_size_cons(Option::None, rest);
            },
            Option::Some(p) => {
                lemma_sw_pat_size(kept, p, st);
                let (q, st1) = sw_pat(kept, p, st);
                lemma_sw_slots_size(kept, s.drop_first(), st1);
                let (rest, st2) = sw_slots(kept, s.drop_first(), st1);
                if !(q is Invalid) {
                    lemma_slots_size_cons(Option::Some(q), rest);
                }
            },
        }
    }
}

pub(crate) proof fn lemma_sw_props_size(kept: Set<u64>, s: Seq<PropV>, st: SweepSt)
    ensures
        ({
            let (out, st2) = sw_props(kept, s, st);
            &&& props_size(out) <= props_size(s)
            &&& (st2.changed ==> st.changed || props_size(out) < props_size(s))
            &&& (st.changed ==> st2.changed)
        }),
    decreases s,
{
    if s.len() > 0 {
        assert(s =~= seq![s[0]] + s.drop_first());
        lemma_props_size_cons(s[0], s.drop_first());
        lemma_sw_prop_size(kept, s[0], st);
        let (out0, st1) = sw_prop(kept, s[0], st);
        lemma_sw_props_size(kept, s.drop_first(), st1);
        let (rest, st2) = sw_props(kept, s.drop_first(), st1);
        match out0 {
            Option::None => {},
            Option::Some(q) => {
                lemma_props_size_cons(q, rest);
            },
        }
    }
}

pub(crate) proof fn lemma_sw_prop_size(kept: Set<u64>, p: PropV, st: SweepSt)
    ensures
        ({
            let (out, st1) = sw_prop(kept, p, st);
            &&& (match out {
                Option::None => 0,
                Option::Some(q) => prop_size(q),
            }) <= prop_size(p)
            &&& (st1.changed ==> st.changed || (match out {
                Option::None => 0int,
                Option::Some(q) => prop_size(q) as int,
            }) < prop_size(p))
            &&& (st.changed ==> st1.changed)
        }),
    decreases p,
{
    match p {
        PropV::KeyValue(inner) => {
            lemma_sw_pat_size(kept, *inner, st);
        },
        PropV::Assign { .. } => {},
        PropV::Rest(inner) => {
            lemma_sw_pat_size(kept, *inner, st);
        },
    }
}

pub(crate) proof fn lemma_sw_declarator_size(kept: Set<u64>, d: DeclaratorV, st: SweepSt)
    ensures
        ({
            let (out, st1) = sw_declarator(kept, d, st);
            &&& (match out {
                Option::None => 0,
                Option::Some(q) => declarator_size(q),
            }) <= declarator_size(d)
            &&& (st1.changed ==> st.changed || (match out {
                Option::None => 0int,
                Option::Some(q) => declarator_size(q) as int,
            }) < declarator_size(d))
            &&& (st.changed ==> st1.changed)
        }),
{
    lemma_sw_pat_size(kept, d.name, st);
}

pub(crate) proof fn lemma_sw_decls_size(kept: Set<u64>, s: Seq<DeclaratorV>, st: SweepSt)
    ensures
        ({
            let (out, st2) = sw_decls(kept, s, st);
            &&& decls_size(out) <= decls_size(s)
            &&& (st2.changed ==> st.changed || decls_size(out) < decls_size(s))
            &&& (st.changed ==> st2.changed)
        }),
    decreases s,
{
    if s.len() > 0 {
        assert(s =~= seq![s[0]] + s.drop_first());
        lemma_decls_size_cons(s[0], s.drop_first());
        lemma_sw_declarator_size(kept, s[0], st);
        let (out0, st1) = sw_declarator(kept, s[0], st);
        lemma_sw_decls_size(kept, s.drop_first(), st1);
        let (rest, st2) = sw_decls(kept, s.drop_first(), st1);
        match out0 {
            Option::None => {},
            Option::Some(q) => {
                lemma_decls_size_cons(q, rest);
            },
        }
    }
}

pub(crate) proof fn lemma_sw_import_specs_len(kept: Set<u64>, st: SweepSt, s: Seq<ImportSpecifierV>)
    ensures
        sw_import_specs(kept, st, s).len() <= s.len(),
    decreases s,
{
    if s.len() > 0 {
        lemma_sw_import_specs_len(kept, st, s.drop_first());
    }
}

pub(crate) proof fn lemma_sw_export_specs_len(r: Set<Seq<char>>, s: Seq<ExportSpecifierV>)
    ensures
        sw_export_specs(r, s).len() <= s.len(),
    decreases s,
{
    if s.len() > 0 {
        lemma_sw_export_specs_len(r, s.drop_first());
    }
}

pub(crate) proof fn lemma_sw_item_size(r: Set<Seq<char>>, kept: Set<u64>, it: ItemV, st: SweepSt)
    ensures
        ({
            let (out, st1) = sw_item(r, kept, it, st);
            &&& (match out {
                Option::None => 0,
                Option::Some(q) => item_size(q),
            }) <= item_size(it)
            &&& (st1.changed ==> st.changed || (match out {
                Option::None => 0int,
                Option::Some(q) => item_size(q) as int,
            }) < item_size(it))
            &&& (st.changed ==> st1.changed)
        }),
{
    match it {
        ItemV::Import { specifiers, .. } => {
            if specifiers.len() > 0 {
                lemma_sw_import_specs_len(kept, st, specifiers);
            }
        },
        ItemV::ExportNamed { specifiers, .. } => {
            lemma_sw_export_specs_len(r, specifiers);
        },
        ItemV::ExportDefaultDecl { .. } => {},
        ItemV::ExportDefaultExpr { .. } => {},
        ItemV::ExportAll { .. } => {},
        ItemV::ExportDecl { decl } => {
            match decl {
                DeclV::Func { .. } => {},
                DeclV::Class { .. } => {},
                DeclV::Var { decls } => {
                    lemma_sw_decls_size(kept, decls, st);
                },
            }
        },
        ItemV::Decl { decl } => {
            match decl {
                DeclV::Func { .. } => {},
                DeclV::Class { .. } => {},
                DeclV::Var { decls } => {
                    lemma_sw_decls_size(kept, decls, st);
                },
            }
        },
        ItemV::Stmt { .. } => {},
    }
}

pub(crate) proof fn lemma_sw_items_size(r: Set<Seq<char>>, kept: Set<u64>, s: Seq<ItemV>, st: SweepSt)
    ensures
        ({
            let (out, st2) = sw_items(r, kept, s, st);
            &&& module_size(out) <= module_size(s)
            &&& (st2.changed ==> st.changed || module_size(out) < module_size(s))
            &&& (st.changed ==> st2.changed)
        }),
    decreases s,
{
    if s.len() > 0 {
        assert(s =~= seq![s[0]] + s.drop_first());
        lemma_module_size_cons(s[0], s.drop_first());
        lemma_sw_item_size(r, kept, s[0], st);
        let (out0, st1) = sw_item(r, kept, s[0], st);
        lemma_sw_items_size(r, kept, s.drop_first(), st1);
        let (rest, st2) = sw_items(r, kept, s.drop_first(), st1);
        match out0 {
            Option::None => {},
            Option::Some(q) => {
                lemma_module_size_cons(q, rest);
            },
        }
    }
}

/// A sweep never grows the module size, strictly shrinks it whenever it
/// newly reports a change, and never clears a change already reported.
pub proof fn lemma_sw_module_size(r: Set<Seq<char>>, kept: Set<u64>, s: Seq<ItemV>, st: SweepSt)
    ensures
        ({
            let (out, st1) = sw_module(r, kept, s, st);
            &&& module_size(out) <= module_size(s)
            &&& (st1.changed ==> st.changed || module_size(out) < module_size(s))
            &&& (st.changed ==> st1.changed)
        }),
{
    lemma_sw_items_size(r, kept, s, st);
    let (out, st1) = sw_items(r, kept, s, st);
    if out.len() == 0 {
        assert(module_size(seq![crate::sweep::empty_export_item()]) == 0) by {
            assert(seq![crate::sweep::empty_export_item()].drop_last() =~= Seq::<ItemV>::empty());
            assert(seq![crate::sweep::empty_export_item()].last() == crate::sweep::empty_export_item());
            assert(module_size(Seq::<ItemV>::empty()) == 0);
        }
    }
}

// ----------------------------------------------------------------------------
// The driver.
// ----------------------------------------------------------------------------

/// One analyze-then-sweep pass, starting from a reset state: the kept set is
/// augmented, the other set rebuilt, and the sweep run with a clear changed
/// flag.
pub open spec fn drive_step(r: Set<Seq<char>>, kept: Set<u64>, s: Seq<ItemV>) -> (
    Seq<ItemV>,
    Set<u64>,
    bool,
) {
    let kept1 = kept + kept_refs(r, s);
    let st = SweepSt { other: other_refs(r, s), changed: false };
    let (out, st1) = sw_module(r, kept1, s, st);
    (out, kept1, st1.changed)
}

/// The fixed point: run passes until one deletes nothing.
pub open spec fn drive(r: Set<Seq<char>>, kept: Set<u64>, s: Seq<ItemV>) -> Seq<ItemV>
    decreases module_size(s),
    via drive_decreases
{
    let (out, kept1, changed) = drive_step(r, kept, s);
    if changed {
        drive(r, kept1, out)
    } else {
        out
    }
}

#[via_fn]
proof fn drive_decreases(r: Set<Seq<char>>, kept: Set<u64>, s: Seq<ItemV>) {
    lemma_sw_module_size(
        r,
        kept + kept_refs(r, s),
        s,
        SweepSt { other: other_refs(r, s), changed: false },
    );
}

/// How many passes the driver makes before it stops.
pub open spec fn drive_passes(r: Set<Seq<char>>, kept: Set<u64>, s: Seq<ItemV>) -> nat
    decreases module_size(s),
    via drive_passes_decreases
{
    let (out, kept1, changed) = drive_step(r, kept, s);
    if changed {
        1 + drive_passes(r, kept1, out)
    } else {
        1
    }
}

#[via_fn]
proof fn drive_passes_decreases(r: Set<Seq<char>>, kept: Set<u64>, s: Seq<ItemV>) {
    lemma_sw_module_size(
        r,
        kept + kept_refs(r, s),
        s,
        SweepSt { other: other_refs(r, s), changed: false },
    );
}

/// Termination bound: the driver reaches its fixed point in at most
/// `module_size(s) + 1` passes, because every pass that reports a change
/// strictly shrinks the module.
pub proof fn lemma_termination_bound(r: Set<Seq<char>>, kept: Set<u64>, s: Seq<ItemV>)
    ensures
        drive_passes(r, kept, s) <= module_size(s) + 1,
    decreases module_size(s),
{
    let (out, kept1, changed) = drive_step(r, kept, s);
    lemma_sw_module_size(
        r,
        kept + kept_refs(r, s),
        s,
        SweepSt { other: other_refs(r, s), changed: false },
    );
    if changed {
        lemma_termination_bound(r, kept1, out);
    }
}

/// Module validity: the driver never returns an empty item list; a module
/// whose items are all deleted collapses to the single empty named export.
pub proof fn lemma_output_nonempty(r: Set<Seq<char>>, kept: Set<u64>, s: Seq<ItemV>)
    ensures
        drive(r, kept, s).len() >= 1,
    decreases module_size(s),
{
    let (out, kept1, changed) = drive_step(r, kept, s);
    lemma_sw_module_size(
        r,
        kept + kept_refs(r, s),
        s,
        SweepSt { other: other_refs(r, s), changed: false },
    );
    if changed {
        lemma_output_nonempty(r, kept1, out);
    }
}

/// Export-driven dead-code elimination.
///
/// Deletes every declaration, import and statement of `m` that is not needed
/// to produce the exports named in `retain_names` (where the name `default`
/// denotes the default export), by repeated analyze-then-sweep passes until a
/// pass deletes nothing.  Repeated or reordered retain names make no
/// difference: the result is determined by the set of names.  The result is
/// always a syntactically valid module: never an empty item list.
///
/// The module must already carry unique symbol identities assigned by the
/// scope resolver to every binding and reference.
pub fn eliminate(m: Module, retain_names: &Vec<String>) -> (r: Module)
    ensures
        r@ == drive(names_set(retain_names@), Set::<u64>::empty(), m@),
        r@.len() >= 1,
{
    let ghost rset = names_set(retain_names@);
    let ghost target = drive(rset, Set::<u64>::empty(), m@);
    let mut cur = m;
    let mut st = LivenessState::new();
    let mut go = true;
    while go
        invariant
            go ==> target == drive(rset, st.kept_set(), cur@),
            !go ==> target == cur@ && cur@.len() >= 1,
        decreases module_size(cur@), (if go {
            1int
        } else {
            0int
        }),
    {
        let ghost kept0 = st.kept_set();
        st.reset();
        analyze(&cur, retain_names, &mut st);
        let ghost kept1 = st.kept_set();
        let ghost st_in = sweep_view(st);
        let ghost pre = cur@;
        cur = sweep(&cur, retain_names, &mut st);
        proof {
            assert(st_in =~= SweepSt { other: other_refs(rset, pre), changed: false });
            lemma_sw_module_size(rset, kept1, pre, st_in);
            assert(drive(rset, kept0, pre) == (if st.changed {
                drive(rset, kept1, cur@)
            } else {
                cur@
            }));
        }
        if !st.changed {
            go = false;
        }
    }
    cur
}

} // verus!
