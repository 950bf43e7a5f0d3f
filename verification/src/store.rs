//! One declared flag's definition and typed value store, with its model.
//!
//! The registry is a vector of flag/definition bindings; its mathematical
//! model is the map from flag characters to the definition's model, built by
//! `reg_of`. The lemmas here relate the vector operations the executable
//! code performs to map operations on the model.

use vstd::prelude::*;

use crate::value::models_of;
use crate::value::ArgValue;
use crate::value::TypeTag;
use crate::value::ValueModel;

verus! {

/// One declared flag: its option bits, display text, accumulated values,
/// optional default, and optional bound kind.
pub struct Argument {
    pub options: u8,
    pub description: String,
    pub values: Vec<ArgValue>,
    pub default_value: Option<ArgValue>,
    pub expected_type: Option<TypeTag>,
}

/// The mathematical model of an [`Argument`].
#[verifier::ext_equal]
pub ghost struct ArgModel {
    pub options: u8,
    pub description: Seq<char>,
    pub values: Seq<ValueModel>,
    pub default_value: Option<ValueModel>,
    pub expected_type: Option<TypeTag>,
}

impl View for Argument {
    type V = ArgModel;

    open spec fn view(&self) -> ArgModel {
        ArgModel {
            options: self.options,
            description: self.description@,
            values: models_of(self.values@),
            default_value: match self.default_value {
                Some(v) => Some(v.model()),
                None => None,
            },
            expected_type: self.expected_type,
        }
    }
}

/// The model of a definition fresh out of [`Argument::new`].
pub open spec fn fresh_arg(options: u8) -> ArgModel {
    ArgModel {
        options,
        description: "-"@,
        values: Seq::empty(),
        default_value: None,
        expected_type: None,
    }
}

impl Argument {
    /// A fresh definition: placeholder description, no values, no default,
    /// no bound kind.
    pub fn new(options: u8) -> (a: Argument)
        ensures
            a@ == fresh_arg(options),
    {
        let a = Argument {
            options,
            description: String::from_str("-"),
            values: Vec::new(),
            default_value: None,
            expected_type: None,
        };
        proof {
            assert(models_of(a.values@) =~= Seq::empty());
            assert(a@ =~= fresh_arg(options));
        }
        a
    }
}

/// One registry entry: a flag string bound to its definition.
pub struct Binding {
    pub flag: String,
    pub arg: Argument,
}

/// No two entries share a flag string.
pub open spec fn keys_unique(s: Seq<Binding>) -> bool {
    forall|i: int, j: int| 0 <= i < j < s.len() ==> s[i].flag@ != s[j].flag@
}

/// The registry model: each entry's flag mapped to its definition's model.
pub open spec fn reg_of(s: Seq<Binding>) -> Map<Seq<char>, ArgModel>
    decreases s.len(),
{
    if s.len() == 0 {
        Map::empty()
    } else {
        reg_of(s.drop_last()).insert(s.last().flag@, s.last().arg@)
    }
}

/// A flag is in the registry model exactly when some entry carries it.
pub proof fn lemma_reg_of_contains(s: Seq<Binding>, f: Seq<char>)
    ensures
        reg_of(s).contains_key(f) <==> exists|i: int| 0 <= i < s.len() && s[i].flag@ == f,
    decreases s.len(),
{
    if s.len() > 0 {
        lemma_reg_of_contains(s.drop_last(), f);
        if s.last().flag@ == f {
            assert(s[s.len() - 1].flag@ == f);
        } else if reg_of(s).contains_key(f) {
            let i = choose|i: int| 0 <= i < s.drop_last().len() && s.drop_last()[i].flag@ == f;
            assert(s[i].flag@ == f);
        } else {
            if exists|i: int| 0 <= i < s.len() && s[i].flag@ == f {
                let i = choose|i: int| 0 <= i < s.len() && s[i].flag@ == f;
                assert(s.drop_last()[i].flag@ == f);
            }
        }
    }
}

/// With unique keys, the model maps each entry's flag to that entry's
/// definition.
pub proof fn lemma_reg_of_index(s: Seq<Binding>, i: int)
    requires
        keys_unique(s),
        0 <= i < s.len(),
    ensures
        reg_of(s).contains_key(s[i].flag@),
        reg_of(s)[s[i].flag@] == s[i].arg@,
    decreases s.len(),
{
    lemma_reg_of_contains(s, s[i].flag@);
    if i < s.len() - 1 {
        assert(keys_unique(s.drop_last()));
        assert(s.drop_last()[i] == s[i]);
        lemma_reg_of_index(s.drop_last(), i);
        assert(s.last().flag@ != s[i].flag@);
    }
}

/// Replacing the definition of entry `i`, keeping its flag, updates the
/// model at that flag alone.
pub proof fn lemma_reg_of_update(s: Seq<Binding>, i: int, b: Binding)
    requires
        keys_unique(s),
        0 <= i < s.len(),
        b.flag@ == s[i].flag@,
    ensures
        keys_unique(s.update(i, b)),
        reg_of(s.update(i, b)) == reg_of(s).insert(b.flag@, b.arg@),
    decreases s.len(),
{
    let s2 = s.update(i, b);
    assert(keys_unique(s2));
    if i == s.len() - 1 {
        assert(s2.drop_last() =~= s.drop_last());
        assert(s2.last() == b);
        assert(reg_of(s2) =~= reg_of(s).insert(b.flag@, b.arg@));
    } else {
        assert(keys_unique(s.drop_last()));
        assert(s.drop_last()[i] == s[i]);
        lemma_reg_of_update(s.drop_last(), i, b);
        assert(s2.drop_last() =~= s.drop_last().update(i, b));
        assert(s2.last() == s.last());
        assert(s.last().flag@ != b.flag@);
        assert(reg_of(s2) =~= reg_of(s).insert(b.flag@, b.arg@));
    }
}

/// Appending an entry inserts its flag into the model.
pub proof fn lemma_reg_of_push(s: Seq<Binding>, b: Binding)
    ensures
        reg_of(s.push(b)) == reg_of(s).insert(b.flag@, b.arg@),
{
    assert(s.push(b).drop_last() =~= s);
    assert(s.push(b).last() == b);
}

} // verus!
