//! Typed retrieval from the value store.
//!
//! `get_spec` is the full statement of what one query returns: an undeclared
//! flag fails, a kind different from the flag's bound kind fails, an empty
//! store falls back to the declared default, and a non-empty store hands the
//! accumulated values out — explicit occurrences and the default are never
//! merged.

use vstd::prelude::*;

use crate::errors::GetError;
use crate::registry::find_index;
use crate::registry::ArgParser;
use crate::registry::ParserModel;
use crate::store::lemma_reg_of_index;
use crate::value::lemma_model_kind;
use crate::value::models_of;
use crate::value::ArgValue;
use crate::value::TypeTag;
use crate::value::ValueModel;

verus! {

/// What `get` returns, over the parser's model: the accumulated values when
/// any were parsed, else one element holding the default, else `NoValue`;
/// `InvalidFlag` for an undeclared flag, and `InvalidType` whenever the
/// queried kind disagrees with the bound kind, the default's kind, or a
/// stored entry's kind.
pub open spec fn get_spec(m: ParserModel, f: Seq<char>, kind: TypeTag) -> Result<
    Seq<ValueModel>,
    GetError,
> {
    if !m.reg.contains_key(f) {
        Err(GetError::InvalidFlag)
    } else {
        let a = m.reg[f];
        if a.expected_type is Some && a.expected_type != Some(kind) {
            Err(GetError::InvalidType)
        } else if a.values.len() == 0 {
            match a.default_value {
                Some(d) => if d.kind() == kind {
                    Ok(seq![d])
                } else {
                    Err(GetError::InvalidType)
                },
                None => Err(GetError::NoValue),
            }
        } else {
            if forall|i: int| 0 <= i < a.values.len() ==> (#[trigger] a.values[i]).kind() == kind {
                Ok(a.values)
            } else {
                Err(GetError::InvalidType)
            }
        }
    }
}

impl ArgParser {
    /// Retrieves the values of `flag` as entries of kind `kind`, per
    /// [`get_spec`]. Read-only.
    pub fn get(&self, flag: &str, kind: TypeTag) -> (r: Result<Vec<ArgValue>, GetError>)
        requires
            self.wf(),
        ensures
            match r {
                Ok(vs) => get_spec(self@, flag@, kind) == Ok::<Seq<ValueModel>, GetError>(
                    models_of(vs@),
                ),
                Err(e) => get_spec(self@, flag@, kind) == Err::<Seq<ValueModel>, GetError>(e),
            },
    {
        match find_index(&self.args, flag) {
            None => Err(GetError::InvalidFlag),
            Some(i) => {
                proof {
                    lemma_reg_of_index(self.args@, i as int);
                }
                let a = &self.args[i].arg;
                if let Some(t) = a.expected_type {
                    if t != kind {
                        return Err(GetError::InvalidType);
                    }
                }
                if a.values.len() == 0 {
                    match &a.default_value {
                        Some(d) => {
                            if d.kind_of() == kind {
                                let mut out: Vec<ArgValue> = Vec::new();
                                out.push(d.duplicate());
                                proof {
                                    lemma_model_kind(*d);
                                    assert(models_of(out@) =~= seq![d.model()]);
                                }
                                Ok(out)
                            } else {
                                proof {
                                    lemma_model_kind(*d);
                                }
                                Err(GetError::InvalidType)
                            }
                        },
                        None => Err(GetError::NoValue),
                    }
                } else {
                    let mut out: Vec<ArgValue> = Vec::new();
                    let mut j: usize = 0;
                    while j < a.values.len()
                        invariant
                            0 <= j <= a.values@.len(),
                            a.values@.len() > 0,
                            a == &self.args@[i as int].arg,
                            i < self.args@.len(),
                            self.wf(),
                            self@.reg.contains_key(flag@),
                            self@.reg[flag@] == self.args@[i as int].arg@,
                            self@.reg[flag@].expected_type is Some ==> self@.reg[flag@].expected_type
                                == Some(kind),
                            out@.len() == j,
                            forall|q: int| 0 <= q < j ==> #[trigger] out@[q] == a.values@[q],
                            forall|q: int| 0 <= q < j ==> (#[trigger] a.values@[q]).kind() == kind,
                        decreases a.values@.len() - j,
                    {
                        if a.values[j].kind_of() != kind {
                            proof {
                                lemma_model_kind(a.values@[j as int]);
                                assert(self@.reg[flag@].values[j as int].kind() != kind);
                            }
                            return Err(GetError::InvalidType);
                        }
                        let v = a.values[j].duplicate();
                        out.push(v);
                        j += 1;
                    }
                    proof {
                        assert(models_of(out@) =~= self@.reg[flag@].values);
                        let ghost mvals = self@.reg[flag@].values;
                        assert forall|q: int|
                            0 <= q < mvals.len() implies (#[trigger] mvals[q]).kind() == kind by {
                            lemma_model_kind(a.values@[q]);
                        }
                    }
                    Ok(out)
                }
            },
        }
    }
}

} // verus!
