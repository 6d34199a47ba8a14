//! Retain-set configuration.
//!
//! A host hands the engine its configuration as a JSON array of export
//! names, for example `["getData", "default"]`.  Parsing is done by
//! serde_json; everything after the parse is verified against the parse
//! result, named by `json_name_list`.

use vstd::prelude::*;
use crate::ast::Module;
use crate::engine::{drive, eliminate};
use crate::liveness::names_set;

verus! {

/// What serde_json parses a JSON text into, when it is read as a list of
/// strings: `Some` of the strings in order if the text is a JSON array of
/// strings, `None` otherwise.  The result depends on the text alone.
pub uninterp spec fn json_name_list(s: Seq<char>) -> Option<Seq<Seq<char>>>;

#[verifier::external_type_specification]
#[verifier::external_body]
pub struct ExJsonError(serde_json::Error);

/// Relies on serde_json::from_str::<Vec<String>>: deserializes a JSON array
/// of strings, deterministically in the text; any other input is an error.
#[verifier::external_body]
fn parse_name_list(s: &str) -> (r: Result<Vec<String>, serde_json::Error>)
    ensures
        match r {
            Result::Ok(v) => json_name_list(s@) == Option::Some(v.deep_view()),
            Result::Err(_) => json_name_list(s@) is None,
        },
{
    serde_json::from_str(s)
}

/// The retain names held in a JSON configuration text: `Some` of the listed
/// names if the text is a JSON array of strings, `None` otherwise.
pub fn retain_names_from_json(s: &str) -> (r: Option<Vec<String>>)
    ensures
        match r {
            Option::Some(v) => json_name_list(s@) == Option::Some(v.deep_view()),
            Option::None => json_name_list(s@) is None,
        },
{
    match parse_name_list(s) {
        Result::Ok(v) => Option::Some(v),
        Result::Err(_) => Option::None,
    }
}

/// Run the elimination with a JSON configuration text: `None` if the text is
/// not a JSON array of strings, otherwise the eliminated module.
pub fn eliminate_configured(m: Module, config: &str) -> (r: Option<Module>)
    ensures
        match r {
            Option::Some(out) => json_name_list(config@) is Some && out@ == drive(
                names_set_of(json_name_list(config@)->0),
                Set::<u64>::empty(),
                m@,
            ),
            Option::None => json_name_list(config@) is None,
        },
{
    match retain_names_from_json(config) {
        Option::Some(names) => {
            let r = eliminate(m, &names);
            proof {
                let d = names.deep_view();
                assert(names_set(names@) =~= names_set_of(d)) by {
                    assert forall|n: Seq<char>|
                        names_set(names@).contains(n) implies names_set_of(d).contains(n) by {
                        let i = choose|i: int|
                            0 <= i < names@.len() && names@[i]@ == n;
                        assert(d[i] == n);
                    }
                    assert forall|n: Seq<char>|
                        names_set_of(d).contains(n) implies names_set(names@).contains(n) by {
                        let i = choose|i: int| 0 <= i < d.len() && d[i] == n;
                        assert(names@[i]@ == n);
                    }
                }
            }
            Option::Some(r)
        },
        Option::None => Option::None,
    }
}

/// The set of names a name list holds, ignoring order and multiplicity.
pub open spec fn names_set_of(s: Seq<Seq<char>>) -> Set<Seq<char>> {
    Set::new(|n: Seq<char>| s.contains(n))
}

} // verus!
