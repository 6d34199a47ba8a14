use keep_export::ast::{Decl, Expr, Ident, Item, Module};
use keep_export::config::{eliminate_configured, retain_names_from_json};

fn func_export(name: &str, sym: u64, body: &[u64]) -> Item {
    Item::ExportDecl {
        decl: Decl::Func {
            ident: Ident { name: name.to_string(), sym },
            body: Expr { refs: body.to_vec() },
        },
    }
}

#[test]
fn json_array_of_strings_parses() {
    let names = retain_names_from_json("[\"getData\", \"default\"]");
    assert_eq!(
        names,
        Some(vec!["getData".to_string(), "default".to_string()])
    );
}

#[test]
fn empty_json_array_parses() {
    assert_eq!(retain_names_from_json("[]"), Some(vec![]));
}

#[test]
fn malformed_json_is_rejected() {
    assert_eq!(retain_names_from_json("not json"), None);
    assert_eq!(retain_names_from_json("{\"a\": 1}"), None);
    assert_eq!(retain_names_from_json("[1, 2]"), None);
}

#[test]
fn configured_elimination_runs_end_to_end() {
    let m = Module {
        items: vec![
            func_export("getData", 1, &[]),
            func_export("getServerData", 2, &[]),
        ],
    };
    let out = eliminate_configured(m, "[\"getData\"]").expect("config should parse");
    assert_eq!(out.items, vec![func_export("getData", 1, &[])]);
}

#[test]
fn configured_elimination_rejects_bad_config() {
    let m = Module { items: vec![func_export("getData", 1, &[])] };
    assert!(eliminate_configured(m, "\"getData\"").is_none());
}
