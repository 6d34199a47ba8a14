//! The module tree that the elimination engine works on.
//!
//! A module is an ordered sequence of top-level items: imports, the various
//! export forms, plain declarations, and other statements.  Every binding and
//! every reference carries the symbol identity that the (external) scope
//! resolver assigned to it; expressions and function bodies are abstracted to
//! the ordered list of symbol identities they reference, which is all the
//! engine ever reads of them.
//!
//! Each executable type has a ghost counterpart (`ItemV`, `PatV`, ...) built
//! from `Seq` instead of `Vec`, which the contracts speak about.

use vstd::prelude::*;

verus! {

/// An identifier occurrence: its source name and the symbol identity that
/// the scope resolver assigned to the binding it belongs to.
#[derive(Debug, PartialEq, Eq)]
pub struct Ident {
    pub name: String,
    pub sym: u64,
}

/// An expression (or a whole function/class body), abstracted to the ordered
/// list of symbol identities it references.
#[derive(Debug, PartialEq, Eq)]
pub struct Expr {
    pub refs: Vec<u64>,
}

/// A binding pattern.  `Invalid` is the sweep's sentinel for "scheduled for
/// deletion"; input trees do not normally contain it.
#[derive(Debug, PartialEq, Eq)]
pub enum Pat {
    Ident(Ident),
    /// Ordered slots; `None` is a hole.
    Array(Vec<Option<Pat>>),
    Object(Vec<ObjectPatProp>),
    Rest(Box<Pat>),
    Invalid,
}

/// A property of an object binding pattern.
#[derive(Debug, PartialEq, Eq)]
pub enum ObjectPatProp {
    /// `{ key: pattern }`
    KeyValue(Box<Pat>),
    /// Shorthand `{ name }` or `{ name = default }`
    Assign { key: Ident, default: Option<Expr> },
    /// `{ ...rest }`
    Rest(Box<Pat>),
}

/// A variable declarator: a binding pattern plus an optional initializer.
#[derive(Debug, PartialEq, Eq)]
pub struct Declarator {
    pub name: Pat,
    pub init: Option<Expr>,
}

/// A declaration: a function, a class, or a variable declaration.
#[derive(Debug, PartialEq, Eq)]
pub enum Decl {
    Func { ident: Ident, body: Expr },
    Class { ident: Ident, body: Expr },
    Var { decls: Vec<Declarator> },
}

/// One specifier of an import item; the engine only reads the local binding.
#[derive(Debug, PartialEq, Eq)]
pub struct ImportSpecifier {
    pub local: Ident,
}

/// One specifier of a named export.
#[derive(Debug, PartialEq, Eq)]
pub enum ExportSpecifier {
    /// `export { orig }` or `export { orig as exported }`
    Named { orig: Ident, exported: Option<String> },
    /// `export * as name from 'src'`
    Namespace { name: String },
    /// `export default_name` in a specifier list
    Default { name: String },
}

/// A top-level item of a module.
#[derive(Debug, PartialEq, Eq)]
pub enum Item {
    Import { specifiers: Vec<ImportSpecifier>, source: String },
    ExportNamed { specifiers: Vec<ExportSpecifier>, src: Option<String> },
    ExportDefaultDecl { ident: Option<Ident>, body: Expr },
    ExportDefaultExpr { expr: Expr },
    ExportAll { source: String },
    ExportDecl { decl: Decl },
    Decl { decl: Decl },
    /// Any other top-level statement, abstracted to its references.
    Stmt { expr: Expr },
}

/// A module: an ordered sequence of top-level items.
#[derive(Debug, PartialEq, Eq)]
pub struct Module {
    pub items: Vec<Item>,
}

// ----------------------------------------------------------------------------
// Ghost counterparts.
// ----------------------------------------------------------------------------

#[verifier::ext_equal]
pub ghost struct IdentV {
    pub name: Seq<char>,
    pub sym: u64,
}

#[verifier::ext_equal]
pub ghost struct ExprV {
    pub refs: Seq<u64>,
}

#[verifier::ext_equal]
pub ghost enum PatV {
    Ident(IdentV),
    Array(Seq<Option<PatV>>),
    Object(Seq<PropV>),
    Rest(Box<PatV>),
    Invalid,
}

#[verifier::ext_equal]
pub ghost enum PropV {
    KeyValue(Box<PatV>),
    Assign { key: IdentV, default: Option<ExprV> },
    Rest(Box<PatV>),
}

#[verifier::ext_equal]
pub ghost struct DeclaratorV {
    pub name: PatV,
    pub init: Option<ExprV>,
}

#[verifier::ext_equal]
pub ghost enum DeclV {
    Func { ident: IdentV, body: ExprV },
    Class { ident: IdentV, body: ExprV },
    Var { decls: Seq<DeclaratorV> },
}

#[verifier::ext_equal]
pub ghost struct ImportSpecifierV {
    pub local: IdentV,
}

#[verifier::ext_equal]
pub ghost enum ExportSpecifierV {
    Named { orig: IdentV, exported: Option<Seq<char>> },
    Namespace { name: Seq<char> },
    Default { name: Seq<char> },
}

#[verifier::ext_equal]
pub ghost enum ItemV {
    Import { specifiers: Seq<ImportSpecifierV>, source: Seq<char> },
    ExportNamed { specifiers: Seq<ExportSpecifierV>, src: Option<Seq<char>> },
    ExportDefaultDecl { ident: Option<IdentV>, body: ExprV },
    ExportDefaultExpr { expr: ExprV },
    ExportAll { source: Seq<char> },
    ExportDecl { decl: DeclV },
    Decl { decl: DeclV },
    Stmt { expr: ExprV },
}

// ----------------------------------------------------------------------------
// Views.
// ----------------------------------------------------------------------------

impl View for Ident {
    type V = IdentV;

    open spec fn view(&self) -> IdentV {
        IdentV { name: self.name@, sym: self.sym }
    }
}

impl View for Expr {
    type V = ExprV;

    open spec fn view(&self) -> ExprV {
        ExprV { refs: self.refs@ }
    }
}

pub open spec fn pat_view(p: Pat) -> PatV
    decreases p,
{
    match p {
        Pat::Ident(i) => PatV::Ident(i@),
        Pat::Array(slots) => PatV::Array(slots_view(slots@)),
        Pat::Object(props) => PatV::Object(props_view(props@)),
        Pat::Rest(inner) => PatV::Rest(Box::new(pat_view(*inner))),
        Pat::Invalid => PatV::Invalid,
    }
}

pub open spec fn slots_view(s: Seq<Option<Pat>>) -> Seq<Option<PatV>>
    decreases s,
{
    if s.len() == 0 {
        Seq::empty()
    } else {
        slots_view(s.drop_last()).push(slot_view(s.last()))
    }
}

pub open spec fn slot_view(s: Option<Pat>) -> Option<PatV>
    decreases s,
{
    match s {
        Option::None => Option::None,
        Option::Some(p) => Option::Some(pat_view(p)),
    }
}

pub open spec fn props_view(s: Seq<ObjectPatProp>) -> Seq<PropV>
    decreases s,
{
    if s.len() == 0 {
        Seq::empty()
    } else {
        props_view(s.drop_last()).push(prop_view(s.last()))
    }
}

pub open spec fn prop_view(p: ObjectPatProp) -> PropV
    decreases p,
{
    match p {
        ObjectPatProp::KeyValue(inner) => PropV::KeyValue(Box::new(pat_view(*inner))),
        ObjectPatProp::Assign { key, default } => PropV::Assign {
            key: key@,
            default: match default {
                Option::None => Option::None,
                Option::Some(e) => Option::Some(e@),
            },
        },
        ObjectPatProp::Rest(inner) => PropV::Rest(Box::new(pat_view(*inner))),
    }
}

impl View for Pat {
    type V = PatV;

    open spec fn view(&self) -> PatV {
        pat_view(*self)
    }
}

impl View for Declarator {
    type V = DeclaratorV;

    open spec fn view(&self) -> DeclaratorV {
        DeclaratorV {
            name: pat_view(self.name),
            init: match self.init {
                Option::None => Option::None,
                Option::Some(e) => Option::Some(e@),
            },
        }
    }
}

pub open spec fn decls_view(s: Seq<Declarator>) -> Seq<DeclaratorV>
    decreases s,
{
    if s.len() == 0 {
        Seq::empty()
    } else {
        decls_view(s.drop_last()).push(s.last()@)
    }
}

impl View for Decl {
    type V = DeclV;

    open spec fn view(&self) -> DeclV {
        match *self {
            Decl::Func { ident, body } => DeclV::Func { ident: ident@, body: body@ },
            Decl::Class { ident, body } => DeclV::Class { ident: ident@, body: body@ },
            Decl::Var { decls } => DeclV::Var { decls: decls_view(decls@) },
        }
    }
}

impl View for ImportSpecifier {
    type V = ImportSpecifierV;

    open spec fn view(&self) -> ImportSpecifierV {
        ImportSpecifierV { local: self.local@ }
    }
}

pub open spec fn import_specs_view(s: Seq<ImportSpecifier>) -> Seq<ImportSpecifierV>
    decreases s,
{
    if s.len() == 0 {
        Seq::empty()
    } else {
        import_specs_view(s.drop_last()).push(s.last()@)
    }
}

impl View for ExportSpecifier {
    type V = ExportSpecifierV;

    open spec fn view(&self) -> ExportSpecifierV {
        match *self {
            ExportSpecifier::Named { orig, exported } => ExportSpecifierV::Named {
                orig: orig@,
                exported: match exported {
                    Option::None => Option::None,
                    Option::Some(n) => Option::Some(n@),
                },
            },
            ExportSpecifier::Namespace { name } => ExportSpecifierV::Namespace { name: name@ },
            ExportSpecifier::Default { name } => ExportSpecifierV::Default { name: name@ },
        }
    }
}

pub open spec fn export_specs_view(s: Seq<ExportSpecifier>) -> Seq<ExportSpecifierV>
    decreases s,
{
    if s.len() == 0 {
        Seq::empty()
    } else {
        export_specs_view(s.drop_last()).push(s.last()@)
    }
}

impl View for Item {
    type V = ItemV;

    open spec fn view(&self) -> ItemV {
        match *self {
            Item::Import { specifiers, source } => ItemV::Import {
                specifiers: import_specs_view(specifiers@),
                source: source@,
            },
            Item::ExportNamed { specifiers, src } => ItemV::ExportNamed {
                specifiers: export_specs_view(specifiers@),
                src: match src {
                    Option::None => Option::None,
                    Option::Some(s) => Option::Some(s@),
                },
            },
            Item::ExportDefaultDecl { ident, body } => ItemV::ExportDefaultDecl {
                ident: match ident {
                    Option::None => Option::None,
                    Option::Some(i) => Option::Some(i@),
                },
                body: body@,
            },
            Item::ExportDefaultExpr { expr } => ItemV::ExportDefaultExpr { expr: expr@ },
            Item::ExportAll { source } => ItemV::ExportAll { source: source@ },
            Item::ExportDecl { decl } => ItemV::ExportDecl { decl: decl@ },
            Item::Decl { decl } => ItemV::Decl { decl: decl@ },
            Item::Stmt { expr } => ItemV::Stmt { expr: expr@ },
        }
    }
}

pub open spec fn items_view(s: Seq<Item>) -> Seq<ItemV>
    decreases s,
{
    if s.len() == 0 {
        Seq::empty()
    } else {
        items_view(s.drop_last()).push(s.last()@)
    }
}

impl View for Module {
    type V = Seq<ItemV>;

    open spec fn view(&self) -> Seq<ItemV> {
        items_view(self.items@)
    }
}

// ----------------------------------------------------------------------------
// Module size: the engine's termination measure.
//
// Every node that a sweep can delete while reporting a change weighs at least
// one, and the placeholder forms it may drop silently (an `Invalid` pattern,
// an export list with no specifiers) weigh zero, so a sweep never increases
// the size and strictly decreases it whenever it reports a change.
// ----------------------------------------------------------------------------

pub open spec fn pat_size(p: PatV) -> nat
    decreases p,
{
    match p {
        PatV::Ident(_) => 1,
        PatV::Array(slots) => 1 + slots_size(slots),
        PatV::Object(props) => 1 + props_size(props),
        PatV::Rest(inner) => pat_size(*inner),
        PatV::Invalid => 0,
    }
}

pub open spec fn slots_size(s: Seq<Option<PatV>>) -> nat
    decreases s,
{
    if s.len() == 0 {
        0
    } else {
        slots_size(s.drop_last()) + slot_size(s.last())
    }
}

pub open spec fn slot_size(s: Option<PatV>) -> nat
    decreases s,
{
    match s {
        Option::None => 0,
        Option::Some(p) => pat_size(p),
    }
}

pub open spec fn props_size(s: Seq<PropV>) -> nat
    decreases s,
{
    if s.len() == 0 {
        0
    } else {
        props_size(s.drop_last()) + prop_size(s.last())
    }
}

pub open spec fn prop_size(p: PropV) -> nat
    decreases p,
{
    match p {
        PropV::KeyValue(inner) => pat_size(*inner),
        PropV::Assign { .. } => 1,
        PropV::Rest(inner) => pat_size(*inner),
    }
}

pub open spec fn declarator_size(d: DeclaratorV) -> nat {
    1 + pat_size(d.name)
}

pub open spec fn decls_size(s: Seq<DeclaratorV>) -> nat
    decreases s,
{
    if s.len() == 0 {
        0
    } else {
        decls_size(s.drop_last()) + declarator_size(s.last())
    }
}

pub open spec fn decl_size(d: DeclV) -> nat {
    match d {
        DeclV::Func { .. } => 1,
        DeclV::Class { .. } => 1,
        DeclV::Var { decls } => 1 + decls_size(decls),
    }
}

pub open spec fn item_size(it: ItemV) -> nat {
    match it {
        ItemV::Import { specifiers, .. } => 1 + specifiers.len(),
        ItemV::ExportNamed { specifiers, .. } => specifiers.len(),
        ItemV::ExportDefaultDecl { .. } => 1,
        ItemV::ExportDefaultExpr { .. } => 1,
        ItemV::ExportAll { .. } => 1,
        ItemV::ExportDecl { decl } => decl_size(decl),
        ItemV::Decl { decl } => decl_size(decl),
        ItemV::Stmt { .. } => 1,
    }
}

pub open spec fn module_size(s: Seq<ItemV>) -> nat
    decreases s,
{
    if s.len() == 0 {
        0
    } else {
        module_size(s.drop_last()) + item_size(s.last())
    }
}

// ----------------------------------------------------------------------------
// Basic facts about the sequence views.
// ----------------------------------------------------------------------------

pub proof fn lemma_items_view_index(s: Seq<Item>)
    ensures
        items_view(s).len() == s.len(),
        forall|i: int| 0 <= i < s.len() ==> items_view(s)[i] == #[trigger] s[i]@,
    decreases s,
{
    if s.len() > 0 {
        lemma_items_view_index(s.drop_last());
        assert forall|i: int| 0 <= i < s.len() implies items_view(s)[i] == #[trigger] s[i]@ by {
            if i < s.len() - 1 {
                assert(s.drop_last()[i] == s[i]);
                assert(items_view(s)[i] == items_view(s.drop_last())[i]);
            } else {
                assert(s[i] == s.last());
            }
        }
    }
}

pub proof fn lemma_import_specs_view_index(s: Seq<ImportSpecifier>)
    ensures
        import_specs_view(s).len() == s.len(),
        forall|i: int| 0 <= i < s.len() ==> import_specs_view(s)[i] == #[trigger] s[i]@,
    decreases s,
{
    if s.len() > 0 {
        lemma_import_specs_view_index(s.drop_last());
        assert forall|i: int| 0 <= i < s.len() implies import_specs_view(s)[i] == #[trigger] s[i]@ by {
            if i < s.len() - 1 {
                assert(s.drop_last()[i] == s[i]);
                assert(import_specs_view(s)[i] == import_specs_view(s.drop_last())[i]);
            } else {
                assert(s[i] == s.last());
            }
        }
    }
}

pub proof fn lemma_export_specs_view_index(s: Seq<ExportSpecifier>)
    ensures
        export_specs_view(s).len() == s.len(),
        forall|i: int| 0 <= i < s.len() ==> export_specs_view(s)[i] == #[trigger] s[i]@,
    decreases s,
{
    if s.len() > 0 {
        lemma_export_specs_view_index(s.drop_last());
        assert forall|i: int| 0 <= i < s.len() implies export_specs_view(s)[i] == #[trigger] s[i]@ by {
            if i < s.len() - 1 {
                assert(s.drop_last()[i] == s[i]);
                assert(export_specs_view(s)[i] == export_specs_view(s.drop_last())[i]);
            } else {
                assert(s[i] == s.last());
            }
        }
    }
}

pub proof fn lemma_decls_view_index(s: Seq<Declarator>)
    ensures
        decls_view(s).len() == s.len(),
        forall|i: int| 0 <= i < s.len() ==> decls_view(s)[i] == #[trigger] s[i]@,
    decreases s,
{
    if s.len() > 0 {
        lemma_decls_view_index(s.drop_last());
        assert forall|i: int| 0 <= i < s.len() implies decls_view(s)[i] == #[trigger] s[i]@ by {
            if i < s.len() - 1 {
                assert(s.drop_last()[i] == s[i]);
                assert(decls_view(s)[i] == decls_view(s.drop_last())[i]);
            } else {
                assert(s[i] == s.last());
            }
        }
    }
}

pub proof fn lemma_slots_view_index(s: Seq<Option<Pat>>)
    ensures
        slots_view(s).len() == s.len(),
        forall|i: int| 0 <= i < s.len() ==> slots_view(s)[i] == slot_view(#[trigger] s[i]),
    decreases s,
{
    if s.len() > 0 {
        lemma_slots_view_index(s.drop_last());
        assert forall|i: int| 0 <= i < s.len() implies slots_view(s)[i] == slot_view(
            #[trigger] s[i],
        ) by {
            if i < s.len() - 1 {
                assert(s.drop_last()[i] == s[i]);
                assert(slots_view(s)[i] == slots_view(s.drop_last())[i]);
            } else {
                assert(s[i] == s.last());
            }
        }
    }
}

pub proof fn lemma_props_view_index(s: Seq<ObjectPatProp>)
    ensures
        props_view(s).len() == s.len(),
        forall|i: int| 0 <= i < s.len() ==> props_view(s)[i] == prop_view(#[trigger] s[i]),
    decreases s,
{
    if s.len() > 0 {
        lemma_props_view_index(s.drop_last());
        assert forall|i: int| 0 <= i < s.len() implies props_view(s)[i] == prop_view(
            #[trigger] s[i],
        ) by {
            if i < s.len() - 1 {
                assert(s.drop_last()[i] == s[i]);
                assert(props_view(s)[i] == props_view(s.drop_last())[i]);
            } else {
                assert(s[i] == s.last());
            }
        }
    }
}

pub proof fn lemma_slots_size_cons(x: Option<PatV>, rest: Seq<Option<PatV>>)
    ensures
        slots_size(seq![x] + rest) == slot_size(x) + slots_size(rest),
    decreases rest,
{
    if rest.len() == 0 {
        assert(seq![x] + rest =~= seq![x]);
        assert(seq![x].len() == 1);
        assert(seq![x].last() == x);
        assert(seq![x].drop_last() =~= Seq::<Option<PatV>>::empty());
        assert(slots_size(Seq::<Option<PatV>>::empty()) == 0);
    } else {
        lemma_slots_size_cons(x, rest.drop_last());
        assert((seq![x] + rest).drop_last() =~= seq![x] + rest.drop_last());
        assert((seq![x] + rest).last() == rest.last());
    }
}

pub proof fn lemma_props_size_cons(x: PropV, rest: Seq<PropV>)
    ensures
        props_size(seq![x] + rest) == prop_size(x) + props_size(rest),
    decreases rest,
{
    if rest.len() == 0 {
        assert(seq![x] + rest =~= seq![x]);
        assert(seq![x].len() == 1);
        assert(seq![x].last() == x);
        assert(seq![x].drop_last() =~= Seq::<PropV>::empty());
        assert(props_size(Seq::<PropV>::empty()) == 0);
    } else {
        lemma_props_size_cons(x, rest.drop_last());
        assert((seq![x] + rest).drop_last() =~= seq![x] + rest.drop_last());
        assert((seq![x] + rest).last() == rest.last());
    }
}

pub proof fn lemma_decls_size_cons(x: DeclaratorV, rest: Seq<DeclaratorV>)
    ensures
        decls_size(seq![x] + rest) == declarator_size(x) + decls_size(rest),
    decreases rest,
{
    if rest.len() == 0 {
        assert(seq![x] + rest =~= seq![x]);
        assert(seq![x].len() == 1);
        assert(seq![x].last() == x);
        assert(seq![x].drop_last() =~= Seq::<DeclaratorV>::empty());
        assert(decls_size(Seq::<DeclaratorV>::empty()) == 0);
    } else {
        lemma_decls_size_cons(x, rest.drop_last());
        assert((seq![x] + rest).drop_last() =~= seq![x] + rest.drop_last());
        assert((seq![x] + rest).last() == rest.last());
    }
}

pub proof fn lemma_module_size_cons(x: ItemV, rest: Seq<ItemV>)
    ensures
        module_size(seq![x] + rest) == item_size(x) + module_size(rest),
    decreases rest,
{
    if rest.len() == 0 {
        assert(seq![x] + rest =~= seq![x]);
        assert(seq![x].len() == 1);
        assert(seq![x].last() == x);
        assert(seq![x].drop_last() =~= Seq::<ItemV>::empty());
        assert(module_size(Seq::<ItemV>::empty()) == 0);
    } else {
        lemma_module_size_cons(x, rest.drop_last());
        assert((seq![x] + rest).drop_last() =~= seq![x] + rest.drop_last());
        assert((seq![x] + rest).last() == rest.last());
    }
}

// ----------------------------------------------------------------------------
// Small executable helpers and further view facts.
// ----------------------------------------------------------------------------

/// The view of an optional value.
pub open spec fn opt_view<T: View>(o: Option<T>) -> Option<T::V> {
    match o {
        Option::None => Option::None,
        Option::Some(x) => Option::Some(x@),
    }
}

/// Whether a pattern is the `Invalid` sentinel.
pub fn pat_is_invalid(p: &Pat) -> (r: bool)
    ensures
        r == (p@ is Invalid),
{
    match p {
        Pat::Invalid => true,
        Pat::Ident(..) => false,
        Pat::Array(..) => false,
        Pat::Object(..) => false,
        Pat::Rest(..) => false,
    }
}

/// A fresh copy of an identifier.
pub fn copy_ident(i: &Ident) -> (r: Ident)
    ensures
        r@ == i@,
{
    Ident { name: i.name.clone(), sym: i.sym }
}

/// A fresh copy of a reference list.
pub fn copy_ids(v: &Vec<u64>) -> (r: Vec<u64>)
    ensures
        r@ == v@,
{
    let mut out: Vec<u64> = Vec::new();
    let mut i: usize = 0;
    while i < v.len()
        invariant
            i <= v.len(),
            out@ == v@.subrange(0, i as int),
        decreases v.len() - i,
    {
        out.push(v[i]);
        proof {
            assert(out@ =~= v@.subrange(0, i as int + 1));
        }
        i = i + 1;
    }
    proof {
        assert(v@.subrange(0, v@.len() as int) =~= v@);
    }
    out
}

/// A fresh copy of an expression.
pub fn copy_expr(e: &Expr) -> (r: Expr)
    ensures
        r@ == e@,
{
    Expr { refs: copy_ids(&e.refs) }
}

/// A fresh copy of an optional expression.
pub fn copy_opt_expr(e: &Option<Expr>) -> (r: Option<Expr>)
    ensures
        opt_view(r) == opt_view(*e),
{
    match e {
        Option::None => Option::None,
        Option::Some(e) => Option::Some(copy_expr(e)),
    }
}

/// A fresh copy of a binding pattern.
pub fn copy_pat(p: &Pat) -> (r: Pat)
    ensures
        r@ == p@,
    decreases *p,
{
    match p {
        Pat::Ident(i) => Pat::Ident(copy_ident(i)),
        Pat::Array(slots) => {
            let mut out: Vec<Option<Pat>> = Vec::new();
            let mut i: usize = 0;
            while i < slots.len()
                invariant
                    i <= slots.len(),
                    slots_view(out@) == slots_view(slots@.subrange(0, i as int)),
                decreases slots.len() - i,
            {
                let ghost out0 = out@;
                match &slots[i] {
                    Option::None => {
                        out.push(Option::None);
                    },
                    Option::Some(sub) => {
                        out.push(Option::Some(copy_pat(sub)));
                    },
                }
                proof {
                    lemma_slots_view_push(out0, out@.last());
                    assert(slots@.subrange(0, i as int + 1).drop_last() =~= slots@.subrange(
                        0,
                        i as int,
                    ));
                    assert(slots@.subrange(0, i as int + 1).last() == slots@[i as int]);
                    assert(out@.drop_last() =~= out0);
                    assert(slot_view(out@.last()) == slot_view(slots@[i as int]));
                }
                i = i + 1;
            }
            proof {
                assert(slots@.subrange(0, slots@.len() as int) =~= slots@);
            }
            Pat::Array(out)
        },
        Pat::Object(props) => {
            let mut out: Vec<ObjectPatProp> = Vec::new();
            let mut i: usize = 0;
            while i < props.len()
                invariant
                    i <= props.len(),
                    props_view(out@) == props_view(props@.subrange(0, i as int)),
                decreases props.len() - i,
            {
                let ghost out0 = out@;
                match &props[i] {
                    ObjectPatProp::KeyValue(inner) => {
                        out.push(ObjectPatProp::KeyValue(Box::new(copy_pat(inner))));
                    },
                    ObjectPatProp::Assign { key, default } => {
                        out.push(
                            ObjectPatProp::Assign {
                                key: copy_ident(key),
                                default: copy_opt_expr(default),
                            },
                        );
                    },
                    ObjectPatProp::Rest(inner) => {
                        out.push(ObjectPatProp::Rest(Box::new(copy_pat(inner))));
                    },
                }
                proof {
                    lemma_props_view_push(out0, out@.last());
                    assert(props@.subrange(0, i as int + 1).drop_last() =~= props@.subrange(
                        0,
                        i as int,
                    ));
                    assert(props@.subrange(0, i as int + 1).last() == props@[i as int]);
                    assert(out@.drop_last() =~= out0);
                    assert(prop_view(out@.last()) == prop_view(props@[i as int]));
                }
                i = i + 1;
            }
            proof {
                assert(props@.subrange(0, props@.len() as int) =~= props@);
            }
            Pat::Object(out)
        },
        Pat::Rest(inner) => Pat::Rest(Box::new(copy_pat(inner))),
        Pat::Invalid => Pat::Invalid,
    }
}

/// A fresh copy of a declaration.
pub fn copy_decl(d: &Decl) -> (r: Decl)
    ensures
        r@ == d@,
{
    match d {
        Decl::Func { ident, body } => Decl::Func {
            ident: copy_ident(ident),
            body: copy_expr(body),
        },
        Decl::Class { ident, body } => Decl::Class {
            ident: copy_ident(ident),
            body: copy_expr(body),
        },
        Decl::Var { decls } => {
            let mut out: Vec<Declarator> = Vec::new();
            let mut i: usize = 0;
            while i < decls.len()
                invariant
                    i <= decls.len(),
                    decls_view(out@) == decls_view(decls@.subrange(0, i as int)),
                decreases decls.len() - i,
            {
                let ghost out0 = out@;
                out.push(
                    Declarator {
                        name: copy_pat(&decls[i].name),
                        init: copy_opt_expr(&decls[i].init),
                    },
                );
                proof {
                    lemma_decls_view_push(out0, out@.last());
                    assert(decls@.subrange(0, i as int + 1).drop_last() =~= decls@.subrange(
                        0,
                        i as int,
                    ));
                    assert(decls@.subrange(0, i as int + 1).last() == decls@[i as int]);
                    assert(out@.drop_last() =~= out0);
                }
                i = i + 1;
            }
            proof {
                assert(decls@.subrange(0, decls@.len() as int) =~= decls@);
            }
            Decl::Var { decls: out }
        },
    }
}

/// A fresh copy of a top-level item.
pub fn copy_item(it: &Item) -> (r: Item)
    ensures
        r@ == it@,
{
    match it {
        Item::Import { specifiers, source } => {
            let mut out: Vec<ImportSpecifier> = Vec::new();
            let mut i: usize = 0;
            while i < specifiers.len()
                invariant
                    i <= specifiers.len(),
                    import_specs_view(out@) == import_specs_view(
                        specifiers@.subrange(0, i as int),
                    ),
                decreases specifiers.len() - i,
            {
                let ghost out0 = out@;
                out.push(ImportSpecifier { local: copy_ident(&specifiers[i].local) });
                proof {
                    lemma_import_specs_view_push(out0, out@.last());
                    assert(specifiers@.subrange(0, i as int + 1).drop_last()
                        =~= specifiers@.subrange(0, i as int));
                    assert(specifiers@.subrange(0, i as int + 1).last()
                        == specifiers@[i as int]);
                    assert(out@.drop_last() =~= out0);
                }
                i = i + 1;
            }
            proof {
                assert(specifiers@.subrange(0, specifiers@.len() as int) =~= specifiers@);
            }
            Item::Import { specifiers: out, source: source.clone() }
        },
        Item::ExportNamed { specifiers, src } => {
            let mut out: Vec<ExportSpecifier> = Vec::new();
            let mut i: usize = 0;
            while i < specifiers.len()
                invariant
                    i <= specifiers.len(),
                    export_specs_view(out@) == export_specs_view(
                        specifiers@.subrange(0, i as int),
                    ),
                decreases specifiers.len() - i,
            {
                let ghost out0 = out@;
                match &specifiers[i] {
                    ExportSpecifier::Named { orig, exported } => {
                        out.push(
                            ExportSpecifier::Named {
                                orig: copy_ident(orig),
                                exported: match exported {
                                    Option::Some(n) => Option::Some(n.clone()),
                                    Option::None => Option::None,
                                },
                            },
                        );
                    },
                    ExportSpecifier::Namespace { name } => {
                        out.push(ExportSpecifier::Namespace { name: name.clone() });
                    },
                    ExportSpecifier::Default { name } => {
                        out.push(ExportSpecifier::Default { name: name.clone() });
                    },
                }
                proof {
                    lemma_export_specs_view_push(out0, out@.last());
                    assert(specifiers@.subrange(0, i as int + 1).drop_last()
                        =~= specifiers@.subrange(0, i as int));
                    assert(specifiers@.subrange(0, i as int + 1).last()
                        == specifiers@[i as int]);
                    assert(out@.drop_last() =~= out0);
                }
                i = i + 1;
            }
            proof {
                assert(specifiers@.subrange(0, specifiers@.len() as int) =~= specifiers@);
            }
            let src2 = match src {
                Option::Some(s) => Option::Some(s.clone()),
                Option::None => Option::None,
            };
            Item::ExportNamed { specifiers: out, src: src2 }
        },
        Item::ExportDefaultDecl { ident, body } => Item::ExportDefaultDecl {
            ident: match ident {
                Option::Some(i) => Option::Some(copy_ident(i)),
                Option::None => Option::None,
            },
            body: copy_expr(body),
        },
        Item::ExportDefaultExpr { expr } => Item::ExportDefaultExpr { expr: copy_expr(expr) },
        Item::ExportAll { source } => Item::ExportAll { source: source.clone() },
        Item::ExportDecl { decl } => Item::ExportDecl { decl: copy_decl(decl) },
        Item::Decl { decl } => Item::Decl { decl: copy_decl(decl) },
        Item::Stmt { expr } => Item::Stmt { expr: copy_expr(expr) },
    }
}

/// A fresh copy of a module.
pub fn copy_module(m: &Module) -> (r: Module)
    ensures
        r@ == m@,
{
    let mut out: Vec<Item> = Vec::new();
    let mut i: usize = 0;
    while i < m.items.len()
        invariant
            i <= m.items.len(),
            items_view(out@) == items_view(m.items@.subrange(0, i as int)),
        decreases m.items.len() - i,
    {
        let ghost out0 = out@;
        out.push(copy_item(&m.items[i]));
        proof {
            lemma_items_view_push(out0, out@.last());
            assert(m.items@.subrange(0, i as int + 1).drop_last() =~= m.items@.subrange(
                0,
                i as int,
            ));
            assert(m.items@.subrange(0, i as int + 1).last() == m.items@[i as int]);
            assert(out@.drop_last() =~= out0);
        }
        i = i + 1;
    }
    proof {
        assert(m.items@.subrange(0, m.items@.len() as int) =~= m.items@);
    }
    Module { items: out }
}

pub proof fn lemma_concat_push<A>(a: Seq<A>, x: A, b: Seq<A>)
    ensures
        a + (seq![x] + b) == a.push(x) + b,
{
    assert(a + (seq![x] + b) =~= a.push(x) + b);
}

pub proof fn lemma_slots_view_push(s: Seq<Option<Pat>>, x: Option<Pat>)
    ensures
        slots_view(s.push(x)) == slots_view(s).push(slot_view(x)),
{
    assert(s.push(x).drop_last() =~= s);
    assert(s.push(x).last() == x);
}

pub proof fn lemma_props_view_push(s: Seq<ObjectPatProp>, x: ObjectPatProp)
    ensures
        props_view(s.push(x)) == props_view(s).push(prop_view(x)),
{
    assert(s.push(x).drop_last() =~= s);
    assert(s.push(x).last() == x);
}

pub proof fn lemma_decls_view_push(s: Seq<Declarator>, x: Declarator)
    ensures
        decls_view(s.push(x)) == decls_view(s).push(x@),
{
    assert(s.push(x).drop_last() =~= s);
    assert(s.push(x).last() == x);
}

pub proof fn lemma_import_specs_view_push(s: Seq<ImportSpecifier>, x: ImportSpecifier)
    ensures
        import_specs_view(s.push(x)) == import_specs_view(s).push(x@),
{
    assert(s.push(x).drop_last() =~= s);
    assert(s.push(x).last() == x);
}

pub proof fn lemma_export_specs_view_push(s: Seq<ExportSpecifier>, x: ExportSpecifier)
    ensures
        export_specs_view(s.push(x)) == export_specs_view(s).push(x@),
{
    assert(s.push(x).drop_last() =~= s);
    assert(s.push(x).last() == x);
}

pub proof fn lemma_items_view_push(s: Seq<Item>, x: Item)
    ensures
        items_view(s.push(x)) == items_view(s).push(x@),
{
    assert(s.push(x).drop_last() =~= s);
    assert(s.push(x).last() == x);
}

} // verus!
