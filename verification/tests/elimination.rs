use keep_export::ast::{
    Decl, Declarator, Expr, ExportSpecifier, Ident, ImportSpecifier, Item, Module, ObjectPatProp,
    Pat,
};
use keep_export::engine::eliminate;

fn id(name: &str, sym: u64) -> Ident {
    Ident { name: name.to_string(), sym }
}

fn refs(syms: &[u64]) -> Expr {
    Expr { refs: syms.to_vec() }
}

fn func_export(name: &str, sym: u64, body: &[u64]) -> Item {
    Item::ExportDecl { decl: Decl::Func { ident: id(name, sym), body: refs(body) } }
}

fn func_decl(name: &str, sym: u64, body: &[u64]) -> Item {
    Item::Decl { decl: Decl::Func { ident: id(name, sym), body: refs(body) } }
}

fn names(list: &[&str]) -> Vec<String> {
    list.iter().map(|s| s.to_string()).collect()
}

/// Retaining one of two exported functions removes the other together with
/// the helper only it referenced.
#[test]
fn keeps_retained_function_and_drops_the_rest() {
    let build = || Module {
        items: vec![
            func_export("getData", 1, &[4]),
            func_export("getServerData", 2, &[5]),
            func_decl("formatX", 5, &[]),
            func_decl("shared", 4, &[]),
        ],
    };
    let out = eliminate(build(), &names(&["getData"]));
    assert_eq!(
        out.items,
        vec![func_export("getData", 1, &[4]), func_decl("shared", 4, &[])]
    );
}

/// An import used only by an unkept function disappears with it: first the
/// function goes, then the now-unused specifier, then the whole import.
#[test]
fn import_of_removed_function_is_dropped() {
    let m = Module {
        items: vec![
            Item::Import {
                specifiers: vec![ImportSpecifier { local: id("fs", 10) }],
                source: "node:fs".to_string(),
            },
            func_export("used", 1, &[]),
            func_decl("readsFs", 2, &[10]),
        ],
    };
    let out = eliminate(m, &names(&["used"]));
    assert_eq!(out.items, vec![func_export("used", 1, &[])]);
}

/// A side-effect-only import (no specifiers) is never dropped.
#[test]
fn side_effect_import_is_preserved() {
    let m = Module {
        items: vec![Item::Import { specifiers: vec![], source: "polyfill".to_string() }],
    };
    let out = eliminate(m, &names(&[]));
    assert_eq!(
        out.items,
        vec![Item::Import { specifiers: vec![], source: "polyfill".to_string() }]
    );
}

/// `export default function App` is kept exactly when `"default"` is
/// retained, together with everything it references.
#[test]
fn default_export_is_name_gated() {
    let build = || Module {
        items: vec![
            Item::ExportDefaultDecl { ident: Some(id("App", 1)), body: refs(&[2]) },
            func_decl("helper", 2, &[]),
        ],
    };
    let kept = eliminate(build(), &names(&["default"]));
    assert_eq!(
        kept.items,
        vec![
            Item::ExportDefaultDecl { ident: Some(id("App", 1)), body: refs(&[2]) },
            func_decl("helper", 2, &[]),
        ]
    );
    let dropped = eliminate(build(), &names(&[]));
    assert_eq!(
        dropped.items,
        vec![Item::ExportNamed { specifiers: vec![], src: None }]
    );
}

/// Destructuring `const {a, b: {c}} = obj`: when only `c` is referenced by a
/// kept export, the `a` shorthand is dropped, the keyed sub-pattern keeps
/// `c`, and the declarator stays.
#[test]
fn destructuring_keeps_only_live_bindings() {
    let obj_pattern = |with_a: bool| {
        let mut props = Vec::new();
        if with_a {
            props.push(ObjectPatProp::Assign { key: id("a", 2), default: None });
        }
        props.push(ObjectPatProp::KeyValue(Box::new(Pat::Object(vec![
            ObjectPatProp::Assign { key: id("c", 3), default: None },
        ]))));
        Pat::Object(props)
    };
    let m = Module {
        items: vec![
            func_export("keepMe", 1, &[3]),
            Item::Decl {
                decl: Decl::Var {
                    decls: vec![Declarator { name: obj_pattern(true), init: Some(refs(&[4])) }],
                },
            },
        ],
    };
    let out = eliminate(m, &names(&["keepMe"]));
    assert_eq!(
        out.items,
        vec![
            func_export("keepMe", 1, &[3]),
            Item::Decl {
                decl: Decl::Var {
                    decls: vec![Declarator { name: obj_pattern(false), init: Some(refs(&[4])) }],
                },
            },
        ]
    );
}

/// A top-level statement is removed unconditionally in the first sweep, even
/// when the names it references are declared elsewhere.
#[test]
fn top_level_statement_is_always_removed() {
    let m = Module {
        items: vec![
            Item::Stmt { expr: refs(&[2, 3]) },
            func_export("keep", 1, &[]),
            func_decl("cond", 2, &[]),
            func_decl("sideEffect", 3, &[]),
        ],
    };
    let out = eliminate(m, &names(&["keep"]));
    assert_eq!(out.items, vec![func_export("keep", 1, &[])]);
}

/// Eliminating twice with the same retain set gives the same module as
/// eliminating once.
#[test]
fn elimination_is_idempotent() {
    let build = || Module {
        items: vec![
            func_export("getData", 1, &[4]),
            func_export("getServerData", 2, &[5]),
            func_decl("formatX", 5, &[]),
            func_decl("shared", 4, &[]),
            Item::Stmt { expr: refs(&[5]) },
        ],
    };
    let retain = names(&["getData"]);
    let once = eliminate(build(), &retain);
    let again = keep_export::ast::copy_module(&once);
    let twice = eliminate(again, &retain);
    assert_eq!(once.items, twice.items);
}

/// Retaining nothing on a module of plain exports collapses it to a single
/// empty named export.
#[test]
fn retaining_nothing_collapses_module() {
    let m = Module {
        items: vec![
            func_export("a", 1, &[2]),
            func_decl("b", 2, &[]),
            Item::ExportDefaultExpr { expr: refs(&[2]) },
        ],
    };
    let out = eliminate(m, &names(&[]));
    assert_eq!(
        out.items,
        vec![Item::ExportNamed { specifiers: vec![], src: None }]
    );
}

/// The result is never an empty item list, even for an empty input module.
#[test]
fn empty_module_yields_empty_named_export() {
    let out = eliminate(Module { items: vec![] }, &names(&["anything"]));
    assert_eq!(
        out.items,
        vec![Item::ExportNamed { specifiers: vec![], src: None }]
    );
}

/// Named-export specifiers are filtered by their exported name, and the
/// local binding of a retained specifier stays alive.
#[test]
fn named_export_specifiers_are_filtered_by_exported_name() {
    let m = Module {
        items: vec![
            Item::ExportNamed {
                specifiers: vec![
                    ExportSpecifier::Named { orig: id("a", 1), exported: Some("x".to_string()) },
                    ExportSpecifier::Named { orig: id("b", 2), exported: None },
                ],
                src: None,
            },
            func_decl("a", 1, &[]),
            func_decl("b", 2, &[]),
        ],
    };
    let out = eliminate(m, &names(&["x"]));
    assert_eq!(
        out.items,
        vec![
            Item::ExportNamed {
                specifiers: vec![ExportSpecifier::Named {
                    orig: id("a", 1),
                    exported: Some("x".to_string()),
                }],
                src: None,
            },
            func_decl("a", 1, &[]),
        ]
    );
}

/// A re-export (`export { a } from 'mod'`) keeps only retained names; the
/// whole item goes when none is retained.
#[test]
fn reexport_dropped_when_no_name_retained() {
    let m = Module {
        items: vec![
            Item::ExportNamed {
                specifiers: vec![ExportSpecifier::Named { orig: id("a", 1), exported: None }],
                src: Some("mod".to_string()),
            },
            func_export("keep", 2, &[]),
        ],
    };
    let out = eliminate(m, &names(&["keep"]));
    assert_eq!(out.items, vec![func_export("keep", 2, &[])]);
}

/// `export * from 'mod'` is always preserved.
#[test]
fn export_all_is_preserved() {
    let m = Module {
        items: vec![Item::ExportAll { source: "mod".to_string() }],
    };
    let out = eliminate(m, &names(&[]));
    assert_eq!(out.items, vec![Item::ExportAll { source: "mod".to_string() }]);
}

/// Repeated and reordered retain names give the same result.
#[test]
fn retain_list_order_and_repeats_are_irrelevant() {
    let build = || Module {
        items: vec![
            func_export("a", 1, &[]),
            func_export("b", 2, &[]),
            func_decl("c", 3, &[]),
        ],
    };
    let one = eliminate(build(), &names(&["a", "b"]));
    let two = eliminate(build(), &names(&["b", "a", "b", "a"]));
    assert_eq!(one.items, two.items);
}

/// An exported class is treated like an exported function.
#[test]
fn exported_class_is_retained_by_name() {
    let m = Module {
        items: vec![
            Item::ExportDecl { decl: Decl::Class { ident: id("Widget", 1), body: refs(&[2]) } },
            func_decl("base", 2, &[]),
            Item::ExportDecl { decl: Decl::Class { ident: id("Other", 3), body: refs(&[]) } },
        ],
    };
    let out = eliminate(m, &names(&["Widget"]));
    assert_eq!(
        out.items,
        vec![
            Item::ExportDecl { decl: Decl::Class { ident: id("Widget", 1), body: refs(&[2]) } },
            func_decl("base", 2, &[]),
        ]
    );
}

/// An exported variable is retained by its first declarator's name, and a
/// retained declaration keeps its own bindings alive.
#[test]
fn exported_variable_retained_by_first_declarator_name() {
    let m = Module {
        items: vec![
            Item::ExportDecl {
                decl: Decl::Var {
                    decls: vec![Declarator {
                        name: Pat::Ident(id("config", 1)),
                        init: Some(refs(&[2])),
                    }],
                },
            },
            func_decl("builder", 2, &[]),
            Item::ExportDecl {
                decl: Decl::Var {
                    decls: vec![Declarator { name: Pat::Ident(id("other", 3)), init: None }],
                },
            },
        ],
    };
    let out = eliminate(m, &names(&["config"]));
    assert_eq!(
        out.items,
        vec![
            Item::ExportDecl {
                decl: Decl::Var {
                    decls: vec![Declarator {
                        name: Pat::Ident(id("config", 1)),
                        init: Some(refs(&[2])),
                    }],
                },
            },
            func_decl("builder", 2, &[]),
        ]
    );
}

/// Array destructuring drops dead slots, keeps holes of surviving patterns,
/// and removes the declarator once every slot is gone.
#[test]
fn array_pattern_slots_are_swept() {
    let m = Module {
        items: vec![
            func_export("keep", 1, &[2]),
            Item::Decl {
                decl: Decl::Var {
                    decls: vec![Declarator {
                        name: Pat::Array(vec![
                            Some(Pat::Ident(id("dead", 3))),
                            None,
                            Some(Pat::Ident(id("live", 2))),
                        ]),
                        init: Some(refs(&[4])),
                    }],
                },
            },
        ],
    };
    let out = eliminate(m, &names(&["keep"]));
    assert_eq!(
        out.items,
        vec![
            func_export("keep", 1, &[2]),
            Item::Decl {
                decl: Decl::Var {
                    decls: vec![Declarator {
                        name: Pat::Array(vec![None, Some(Pat::Ident(id("live", 2)))]),
                        init: Some(refs(&[4])),
                    }],
                },
            },
        ]
    );
}

/// Dropping a shorthand property first registers its default value, so what
/// the default referenced survives one more pass and is removed on the next.
#[test]
fn shorthand_default_is_marked_before_removal() {
    let m = Module {
        items: vec![
            func_export("keep", 1, &[]),
            Item::Decl {
                decl: Decl::Var {
                    decls: vec![Declarator {
                        name: Pat::Object(vec![ObjectPatProp::Assign {
                            key: id("x", 2),
                            default: Some(refs(&[3])),
                        }]),
                        init: Some(refs(&[4])),
                    }],
                },
            },
            func_decl("helper", 3, &[]),
        ],
    };
    let out = eliminate(m, &names(&["keep"]));
    assert_eq!(out.items, vec![func_export("keep", 1, &[])]);
}

/// `export * as ns from 'mod'` is kept exactly when its exported name is
/// retained.
#[test]
fn namespace_reexport_is_filtered_by_name() {
    let build = || Module {
        items: vec![
            Item::ExportNamed {
                specifiers: vec![ExportSpecifier::Namespace { name: "ns".to_string() }],
                src: Some("mod".to_string()),
            },
            func_export("keep", 1, &[]),
        ],
    };
    let kept = eliminate(build(), &names(&["ns", "keep"]));
    assert_eq!(
        kept.items,
        vec![
            Item::ExportNamed {
                specifiers: vec![ExportSpecifier::Namespace { name: "ns".to_string() }],
                src: Some("mod".to_string()),
            },
            func_export("keep", 1, &[]),
        ]
    );
    let dropped = eliminate(build(), &names(&["keep"]));
    assert_eq!(dropped.items, vec![func_export("keep", 1, &[])]);
}

/// A chain of helpers is unwound one layer per pass until only what the
/// retained export reaches is left.
#[test]
fn reference_chain_is_unwound_layer_by_layer() {
    let m = Module {
        items: vec![
            func_export("keep", 1, &[]),
            func_decl("a", 2, &[3]),
            func_decl("b", 3, &[4]),
            func_decl("c", 4, &[]),
        ],
    };
    let out = eliminate(m, &names(&["keep"]));
    assert_eq!(out.items, vec![func_export("keep", 1, &[])]);
}
