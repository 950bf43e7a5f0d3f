//! The closed set of value kinds a flag can carry, with its mathematical
//! model.
//!
//! Dynamic typing in the store is a sum type over the supported kinds plus an
//! explicit kind tag; the tag doubles as the `expected_type` binding of a
//! flag, so a tag/value mismatch cannot arise by construction.

use vstd::prelude::*;

verus! {

/// The kind tag of a stored value: the runtime stand-in for a type parameter.
#[derive(Clone, Copy, Debug, PartialEq, Eq, Structural)]
pub enum TypeTag {
    Str,
    Bool,
    Int,
}

/// One dynamically-typed entry of a flag's value store.
#[derive(Debug, PartialEq, Eq)]
pub enum ArgValue {
    Str(String),
    Bool(bool),
    Int(i64),
}

/// The mathematical model of an [`ArgValue`]: the same sum, over `Seq<char>`
/// and `int`.
#[verifier::ext_equal]
pub ghost enum ValueModel {
    Str(Seq<char>),
    Bool(bool),
    Int(int),
}

impl ValueModel {
    /// The kind of a modelled value.
    pub open spec fn kind(self) -> TypeTag {
        match self {
            ValueModel::Str(_) => TypeTag::Str,
            ValueModel::Bool(_) => TypeTag::Bool,
            ValueModel::Int(_) => TypeTag::Int,
        }
    }
}

impl ArgValue {
    /// The model of this value.
    pub open spec fn model(self) -> ValueModel {
        match self {
            ArgValue::Str(s) => ValueModel::Str(s@),
            ArgValue::Bool(b) => ValueModel::Bool(b),
            ArgValue::Int(i) => ValueModel::Int(i as int),
        }
    }

    /// The kind of this value.
    pub open spec fn kind(self) -> TypeTag {
        match self {
            ArgValue::Str(_) => TypeTag::Str,
            ArgValue::Bool(_) => TypeTag::Bool,
            ArgValue::Int(_) => TypeTag::Int,
        }
    }

    /// Reports the kind of this value.
    pub fn kind_of(&self) -> (k: TypeTag)
        ensures
            k == self.kind(),
    {
        match self {
            ArgValue::Str(_) => TypeTag::Str,
            ArgValue::Bool(_) => TypeTag::Bool,
            ArgValue::Int(_) => TypeTag::Int,
        }
    }

    /// Returns a copy of this value with the same model.
    pub fn duplicate(&self) -> (r: ArgValue)
        ensures
            r == *self,
    {
        match self {
            ArgValue::Str(s) => ArgValue::Str(s.clone()),
            ArgValue::Bool(b) => ArgValue::Bool(*b),
            ArgValue::Int(i) => ArgValue::Int(*i),
        }
    }
}

/// Appending a stored value appends its model.
pub proof fn lemma_models_of_push(s: Seq<ArgValue>, v: ArgValue)
    ensures
        models_of(s.push(v)) == models_of(s).push(v.model()),
{
    assert(models_of(s.push(v)) =~= models_of(s).push(v.model()));
}

/// A stored value's model has the stored value's kind.
pub proof fn lemma_model_kind(v: ArgValue)
    ensures
        v.model().kind() == v.kind(),
{
}

/// The models of a sequence of stored values, in order.
pub open spec fn models_of(vs: Seq<ArgValue>) -> Seq<ValueModel> {
    vs.map_values(|v: ArgValue| v.model())
}

} // verus!
