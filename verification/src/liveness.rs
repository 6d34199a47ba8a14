//! The liveness state shared by the reference analyzer and the sweeper, and
//! the retain-set lookups.
//!
//! `used_by_kept` holds the symbol identities referenced by retained exports;
//! it only ever grows across the passes of a run.  `used_by_other` holds the
//! identities referenced by any other code and is rebuilt from scratch at the
//! start of each pass.  `changed` records whether the current sweep deleted
//! anything.  A symbol is live while it is in either set.

use vstd::prelude::*;
use vstd::string::StringExecFns;

verus! {

/// The set of symbol identities a sequence holds, ignoring order and
/// multiplicity.
pub open spec fn idset(s: Seq<u64>) -> Set<u64> {
    Set::new(|x: u64| s.contains(x))
}

/// The set of names a retain configuration holds, ignoring order and
/// multiplicity.
pub open spec fn names_set(s: Seq<String>) -> Set<Seq<char>> {
    Set::new(|n: Seq<char>| exists|i: int| 0 <= i < s.len() && s[i]@ == n)
}

/// The name that denotes the module's default export in a retain set.
pub open spec fn default_name() -> Seq<char> {
    "default"@
}

pub proof fn lemma_idset_push(s: Seq<u64>, x: u64)
    ensures
        idset(s.push(x)) == idset(s).insert(x),
{
    assert(idset(s.push(x)) =~= idset(s).insert(x)) by {
        assert forall|y: u64| idset(s.push(x)).contains(y) implies idset(s).insert(x).contains(
            y,
        ) by {
            let i = choose|i: int| 0 <= i < s.push(x).len() && s.push(x)[i] == y;
            if i < s.len() {
                assert(s[i] == y);
            }
        }
        assert forall|y: u64| idset(s).insert(x).contains(y) implies idset(s.push(x)).contains(
            y,
        ) by {
            if s.contains(y) {
                let i = choose|i: int| 0 <= i < s.len() && s[i] == y;
                assert(s.push(x)[i] == y);
            } else {
                assert(s.push(x)[s.len() as int] == x);
            }
        }
    }
}

/// The state shared by the analyzer and the sweeper during one run.
pub struct LivenessState {
    /// Identities referenced by retained exports; grows monotonically.
    pub used_by_kept: Vec<u64>,
    /// Identities referenced by other code; rebuilt each pass.
    pub used_by_other: Vec<u64>,
    /// Whether the current sweep deleted anything.
    pub changed: bool,
}

fn contains_id(v: &Vec<u64>, x: u64) -> (r: bool)
    ensures
        r == v@.contains(x),
{
    let mut i: usize = 0;
    while i < v.len()
        invariant
            0 <= i <= v.len(),
            forall|j: int| 0 <= j < i ==> v@[j] != x,
        decreases v.len() - i,
    {
        if v[i] == x {
            return true;
        }
        i = i + 1;
    }
    false
}

fn add_id(v: &mut Vec<u64>, x: u64)
    ensures
        idset(final(v)@) == idset(old(v)@).insert(x),
{
    if !contains_id(v, x) {
        v.push(x);
        proof {
            assert(idset(v@) =~= idset(old(v)@).insert(x)) by {
                assert forall|y: u64|
                    idset(v@).contains(y) implies idset(old(v)@).insert(x).contains(y) by {
                    let i = choose|i: int| 0 <= i < v@.len() && v@[i] == y;
                    if i < old(v)@.len() {
                        assert(old(v)@[i] == y);
                    }
                }
                assert forall|y: u64|
                    idset(old(v)@).insert(x).contains(y) implies idset(v@).contains(y) by {
                    if old(v)@.contains(y) {
                        let i = choose|i: int| 0 <= i < old(v)@.len() && old(v)@[i] == y;
                        assert(v@[i] == y);
                    } else {
                        assert(v@[old(v)@.len() as int] == x);
                    }
                }
            }
        }
    } else {
        proof {
            assert(idset(v@) =~= idset(old(v)@).insert(x));
        }
    }
}

impl LivenessState {
    /// The identities referenced by retained exports, as a set.
    pub open spec fn kept_set(&self) -> Set<u64> {
        idset(self.used_by_kept@)
    }

    /// The identities referenced by any other code, as a set.
    pub open spec fn other_set(&self) -> Set<u64> {
        idset(self.used_by_other@)
    }

    /// A symbol is live while either set holds it.
    pub open spec fn live_set(&self) -> Set<u64> {
        self.kept_set().union(self.other_set())
    }

    /// A fresh state: both sets empty, no change recorded.
    pub fn new() -> (r: Self)
        ensures
            r.kept_set() == Set::<u64>::empty(),
            r.other_set() == Set::<u64>::empty(),
            !r.changed,
    {
        let r = LivenessState { used_by_kept: Vec::new(), used_by_other: Vec::new(), changed: false };
        proof {
            assert(r.kept_set() =~= Set::<u64>::empty());
            assert(r.other_set() =~= Set::<u64>::empty());
        }
        r
    }

    /// Start a new pass: forget the other-references, keep the kept ones.
    pub fn reset(&mut self)
        ensures
            final(self).kept_set() == old(self).kept_set(),
            final(self).other_set() == Set::<u64>::empty(),
            !final(self).changed,
    {
        self.used_by_other = Vec::new();
        self.changed = false;
        proof {
            assert(self.other_set() =~= Set::<u64>::empty());
        }
    }

    /// Record a reference made by a retained export.
    pub fn add_kept(&mut self, x: u64)
        ensures
            final(self).kept_set() == old(self).kept_set().insert(x),
            final(self).other_set() == old(self).other_set(),
            final(self).changed == old(self).changed,
    {
        add_id(&mut self.used_by_kept, x);
    }

    /// Record a reference made by other code.
    pub fn add_other(&mut self, x: u64)
        ensures
            final(self).kept_set() == old(self).kept_set(),
            final(self).other_set() == old(self).other_set().insert(x),
            final(self).changed == old(self).changed,
    {
        add_id(&mut self.used_by_other, x);
    }

    /// Whether a symbol identity is referenced by kept or by other code.
    pub fn is_live(&self, x: u64) -> (r: bool)
        ensures
            r == self.live_set().contains(x),
    {
        contains_id(&self.used_by_kept, x) || contains_id(&self.used_by_other, x)
    }
}

/// Whether the retain configuration holds the given name.
pub fn retains_name(names: &Vec<String>, n: &String) -> (r: bool)
    ensures
        r == names_set(names@).contains(n@),
{
    let mut i: usize = 0;
    while i < names.len()
        invariant
            0 <= i <= names.len(),
            forall|j: int| 0 <= j < i ==> names@[j]@ != n@,
        decreases names.len() - i,
    {
        if names[i].eq(n) {
            return true;
        }
        i = i + 1;
    }
    false
}

/// Whether the retain configuration retains the module's default export.
pub fn retains_default(names: &Vec<String>) -> (r: bool)
    ensures
        r == names_set(names@).contains(default_name()),
{
    let d: String = String::from_str("default");
    retains_name(names, &d)
}

} // verus!
