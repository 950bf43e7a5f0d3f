//! The declaration registry: the parser value itself, its mathematical
//! model, and the declaration-time operations.
//!
//! Flags must be globally unique across the registry; the metadata calls
//! (`help`, `default_value`, `expected_type`) act on the batch of flags the
//! most recent `add_arg` declared. Misuse of the declaration API (a repeated
//! flag, a metadata call before any declaration, rebinding a bound kind) is a
//! programmer error, excluded by the preconditions here rather than detected
//! at run time: callers that cannot establish them must check first and
//! abort, as a broken declaration is not recoverable input.

use vstd::prelude::*;

use crate::constants::ARG_REQUIRED;
use crate::settings::Settings;
use crate::store::fresh_arg;
use crate::store::keys_unique;
use crate::store::lemma_reg_of_contains;
use crate::store::lemma_reg_of_index;
use crate::store::lemma_reg_of_push;
use crate::store::lemma_reg_of_update;
use crate::store::reg_of;
use crate::store::ArgModel;
use crate::store::Argument;
use crate::store::Binding;
use crate::strutil::lemma_strset_contains;
use crate::strutil::lemma_strset_push;
use crate::strutil::str_eq;
use crate::strutil::strset;
use crate::strutil::views_unique;
use crate::value::ArgValue;
use crate::value::TypeTag;

verus! {

/// The program's display identity, used by the generated help menu.
pub struct PInfo {
    pub program_name: String,
    pub program_version: String,
}

impl PInfo {
    /// Records the program's name and version.
    pub fn new(program_name: &str, program_version: &str) -> (r: PInfo)
        ensures
            r.program_name@ == program_name@,
            r.program_version@ == program_version@,
    {
        PInfo {
            program_name: String::from_str(program_name),
            program_version: String::from_str(program_version),
        }
    }
}

/// The argument parser: declaration registry, typed value store, and parse
/// state, exclusively owned by the caller for one parse cycle.
pub struct ArgParser {
    pub args: Vec<Binding>,
    pub print_arg_vecs: Vec<Vec<String>>,
    pub modifiable_args: Vec<String>,
    pub required_args: Vec<String>,
    pub p_info: PInfo,
    pub other_args: Vec<String>,
    pub help: String,
    pub settings: Settings,
}

/// The mathematical model of an [`ArgParser`].
#[verifier::ext_equal]
pub ghost struct ParserModel {
    /// Each declared flag mapped to its definition's model.
    pub reg: Map<Seq<char>, ArgModel>,
    /// The declared flags, in declaration order.
    pub keys: Seq<Seq<char>>,
    /// The declaration batches, in order, for help-menu layout.
    pub batches: Seq<Seq<Seq<char>>>,
    /// The batch the next metadata call applies to.
    pub modifiable: Seq<Seq<char>>,
    /// The required flags not yet matched.
    pub required: Set<Seq<char>>,
    /// The unrecognized tokens collected so far.
    pub other: Seq<Seq<char>>,
    /// The accumulated help text.
    pub help: Seq<char>,
    pub program_name: Seq<char>,
    pub program_version: Seq<char>,
}

impl View for ArgParser {
    type V = ParserModel;

    open spec fn view(&self) -> ParserModel {
        ParserModel {
            reg: reg_of(self.args@),
            keys: self.args@.map_values(|b: Binding| b.flag@),
            batches: self.print_arg_vecs.deep_view(),
            modifiable: self.modifiable_args.deep_view(),
            required: strset(self.required_args@),
            other: self.other_args.deep_view(),
            help: self.help@,
            program_name: self.p_info.program_name@,
            program_version: self.p_info.program_version@,
        }
    }
}

impl ArgParser {
    /// Well-formedness: flags are unique, and the outstanding-required list
    /// holds distinct, declared flags.
    pub open spec fn wf(self) -> bool {
        &&& keys_unique(self.args@)
        &&& views_unique(self.required_args@)
        &&& forall|i: int|
            0 <= i < self.required_args@.len() ==> reg_of(self.args@).contains_key(
                #[trigger] self.required_args@[i]@,
            )
    }

    /// An empty registry with default settings.
    pub fn new(program_name: &str, program_version: &str) -> (r: ArgParser)
        ensures
            r.wf(),
            r@.reg == Map::<Seq<char>, ArgModel>::empty(),
            r@.keys == Seq::<Seq<char>>::empty(),
            r@.batches == Seq::<Seq<Seq<char>>>::empty(),
            r@.modifiable == Seq::<Seq<char>>::empty(),
            r@.required == Set::<Seq<char>>::empty(),
            r@.other == Seq::<Seq<char>>::empty(),
            r@.help == Seq::<char>::empty(),
            r@.program_name == program_name@,
            r@.program_version == program_version@,
            !r.settings.allow_invalid_args,
            r.settings.generate_default_flags,
            r.settings.generate_help_menu,
            !r.settings.allow_no_args,
    {
        let r = ArgParser {
            args: Vec::new(),
            print_arg_vecs: Vec::new(),
            modifiable_args: Vec::new(),
            required_args: Vec::new(),
            p_info: PInfo::new(program_name, program_version),
            other_args: Vec::new(),
            help: String::new(),
            settings: Settings::new(),
        };
        proof {
            assert(r@.keys =~= Seq::<Seq<char>>::empty());
            assert(r@.batches =~= Seq::<Seq<Seq<char>>>::empty());
            assert(r@.modifiable =~= Seq::<Seq<char>>::empty());
            assert(r@.other =~= Seq::<Seq<char>>::empty());
        }
        r
    }
}

impl ArgParser {
    /// Whether a declaration batch is admissible: its flags are distinct and
    /// none is already registered. A batch breaking this is a programmer
    /// error, fatal at configuration time.
    pub open spec fn can_declare(self, flags: Seq<String>) -> bool {
        &&& views_unique(flags)
        &&& forall|i: int|
            0 <= i < flags.len() ==> !self.view().reg.contains_key(#[trigger] flags[i]@)
    }

    /// Registers every flag of `flags` as a fresh definition sharing
    /// `options`, makes the batch the target of subsequent metadata calls,
    /// and seeds the required set when `ARG_REQUIRED` is set. Every flag
    /// must be new to the registry.
    pub fn add_arg(&mut self, flags: &Vec<String>, options: u8)
        requires
            old(self).wf(),
            old(self).can_declare(flags@),
        ensures
            final (self).wf(),
            final (self)@.keys == old(self)@.keys + flags.deep_view(),
            final (self)@.reg.dom() == old(self)@.reg.dom() + strset(flags@),
            forall|f: Seq<char>|
                #[trigger] old(self)@.reg.contains_key(f) ==> final (self)@.reg[f] == old(
                    self,
                )@.reg[f],
            forall|i: int|
                0 <= i < flags@.len() ==> final (self)@.reg[#[trigger] flags@[i]@] == fresh_arg(
                    options,
                ),
            final (self)@.batches == old(self)@.batches.push(flags.deep_view()),
            final (self)@.modifiable == flags.deep_view(),
            final (self)@.required == if options & ARG_REQUIRED != 0 {
                old(self)@.required + strset(flags@)
            } else {
                old(self)@.required
            },
            final (self)@.other == old(self)@.other,
            final (self)@.help == old(self)@.help,
            final (self)@.program_name == old(self)@.program_name,
            final (self)@.program_version == old(self)@.program_version,
            final (self).settings == old(self).settings,
    {
        let ghost args0 = old(self).args@;
        let ghost req0 = old(self).required_args@;
        self.print_arg_vecs.push(clone_strings(flags));
        self.modifiable_args.clear();
        let ghost pv = self.print_arg_vecs@;
        let mut i: usize = 0;
        while i < flags.len()
            invariant
                0 <= i <= flags@.len(),
                views_unique(flags@),
                forall|j: int|
                    0 <= j < flags@.len() ==> !reg_of(args0).contains_key(#[trigger] flags@[j]@),
                self.args@.len() == args0.len() + i,
                forall|j: int| 0 <= j < args0.len() ==> self.args@[j] == args0[j],
                forall|j: int|
                    0 <= j < i ==> (#[trigger] self.args@[args0.len() + j]).flag@ == flags@[j]@
                        && self.args@[args0.len() + j].arg@ == fresh_arg(options),
                keys_unique(self.args@),
                forall|f: Seq<char>|
                    #[trigger] reg_of(self.args@).contains_key(f) <==> (reg_of(args0).contains_key(
                        f,
                    ) || exists|j: int| 0 <= j < i && flags@[j]@ == f),
                forall|f: Seq<char>|
                    reg_of(args0).contains_key(f) ==> #[trigger] reg_of(self.args@)[f] == reg_of(
                        args0,
                    )[f],
                forall|j: int|
                    0 <= j < i ==> reg_of(self.args@)[#[trigger] flags@[j]@] == fresh_arg(options),
                self.modifiable_args@.len() == i,
                forall|j: int| 0 <= j < i ==> (#[trigger] self.modifiable_args@[j])@ == flags@[j]@,
                views_unique(self.required_args@),
                forall|j: int|
                    0 <= j < self.required_args@.len() ==> reg_of(self.args@).contains_key(
                        #[trigger] self.required_args@[j]@,
                    ),
                strset(self.required_args@) == if options & ARG_REQUIRED != 0 {
                    strset(req0) + strset(flags@.take(i as int))
                } else {
                    strset(req0)
                },
                forall|j: int|
                    0 <= j < req0.len() ==> reg_of(args0).contains_key(#[trigger] req0[j]@),
                self.print_arg_vecs@ == pv,
                self.p_info == old(self).p_info,
                self.other_args == old(self).other_args,
                self.help == old(self).help,
                self.settings == old(self).settings,
            decreases flags@.len() - i,
        {
            proof {
                lemma_reg_of_contains(self.args@, flags@[i as int]@);
                lemma_strset_contains(flags@.take(i as int), flags@[i as int]@);
                if options & ARG_REQUIRED != 0 {
                    lemma_strset_contains(req0, flags@[i as int]@);
                    if strset(req0).contains(flags@[i as int]@) {
                        let j = choose|j: int| 0 <= j < req0.len() && req0[j]@ == flags@[i as int]@;
                        assert(reg_of(args0).contains_key(req0[j]@));
                    }
                }
            }
            let ghost args_before = self.args@;
            self.args.push(Binding { flag: flags[i].clone(), arg: Argument::new(options) });
            proof {
                lemma_reg_of_push(args_before, self.args@.last());
            }
            self.modifiable_args.push(flags[i].clone());
            if (options & ARG_REQUIRED) != 0 {
                let ghost req_before = self.required_args@;
                self.required_args.push(flags[i].clone());
                proof {
                    lemma_strset_push(req_before, self.required_args@.last());
                    lemma_strset_contains(req_before, flags@[i as int]@);
                    assert(flags@.take(i + 1).drop_last() =~= flags@.take(i as int));
                    lemma_strset_push(flags@.take(i as int), flags@[i as int]);
                    assert(flags@.take(i + 1) =~= flags@.take(i as int).push(flags@[i as int]));
                    assert(strset(self.required_args@) =~= strset(req0) + strset(
                        flags@.take(i + 1),
                    ));
                }
            } else {
                proof {
                    assert(flags@.take(i + 1).drop_last() =~= flags@.take(i as int));
                }
            }
            i += 1;
        }
        proof {
            assert(flags@.take(flags@.len() as int) =~= flags@);
            assert forall|j: int| 0 <= j < self.args@.len() implies #[trigger] self.args@[j].flag@
                == (old(self)@.keys + flags.deep_view())[j] by {
                if j >= args0.len() {
                    let jj = j - args0.len();
                    assert(self.args@[args0.len() + jj].flag@ == flags@[jj]@);
                }
            }
            assert(self@.keys =~= old(self)@.keys + flags.deep_view());
            assert forall|f: Seq<char>|
                self@.reg.dom().contains(f) <==> (old(self)@.reg.dom() + strset(flags@)).contains(
                    f,
                ) by {
                lemma_strset_contains(flags@, f);
            }
            assert(self@.reg.dom() =~= old(self)@.reg.dom() + strset(flags@));
            assert(self@.batches =~= old(self)@.batches.push(flags.deep_view()));
            assert(self@.modifiable =~= flags.deep_view());
        }
    }
}

impl ArgParser {
    /// Applies `description` to every flag of the most recently declared
    /// batch. At least one batch must have been declared.
    pub fn help(&mut self, description: String)
        requires
            old(self).wf(),
            old(self)@.modifiable.len() > 0,
        ensures
            final (self).wf(),
            final (self)@.reg.dom() == old(self)@.reg.dom(),
            forall|f: Seq<char>|
                #[trigger] old(self)@.reg.contains_key(f) ==> final (self)@.reg[f] == (if old(
                    self,
                )@.modifiable.contains(f) {
                    ArgModel { description: description@, ..old(self)@.reg[f] }
                } else {
                    old(self)@.reg[f]
                }),
            final (self)@.keys == old(self)@.keys,
            final (self)@.batches == old(self)@.batches,
            final (self)@.modifiable == old(self)@.modifiable,
            final (self)@.required == old(self)@.required,
            final (self)@.other == old(self)@.other,
            final (self)@.help == old(self)@.help,
            final (self)@.program_name == old(self)@.program_name,
            final (self)@.program_version == old(self)@.program_version,
            final (self).settings == old(self).settings,
    {
        let ghost args0 = old(self).args@;
        let ghost mod0 = old(self)@.modifiable;
        let mut k: usize = 0;
        while k < self.modifiable_args.len()
            invariant
                0 <= k <= mod0.len(),
                self.modifiable_args == old(self).modifiable_args,
                mod0 == old(self)@.modifiable,
                keys_unique(args0),
                self.args@.len() == args0.len(),
                forall|j: int| 0 <= j < args0.len() ==> #[trigger] self.args@[j].flag@
                    == args0[j].flag@,
                keys_unique(self.args@),
                forall|f: Seq<char>|
                    #[trigger] reg_of(self.args@).contains_key(f) <==> reg_of(args0).contains_key(
                        f,
                    ),
                forall|f: Seq<char>|
                    #[trigger] reg_of(args0).contains_key(f) ==> reg_of(self.args@)[f] == (if exists|
                        j: int,
                    | 0 <= j < k && mod0[j] == f {
                        ArgModel { description: description@, ..reg_of(args0)[f] }
                    } else {
                        reg_of(args0)[f]
                    }),
                self.required_args == old(self).required_args,
                self.print_arg_vecs == old(self).print_arg_vecs,
                self.p_info == old(self).p_info,
                self.other_args == old(self).other_args,
                self.help == old(self).help,
                self.settings == old(self).settings,
            decreases mod0.len() - k,
        {
            let flag = self.modifiable_args[k].clone();
            assert(flag@ == mod0[k as int]);
            match find_index(&self.args, flag.as_str()) {
                Some(i) => {
                    let ghost args_before = self.args@;
                    proof {
                        lemma_reg_of_index(args_before, i as int);
                    }
                    let b = &mut self.args[i];
                    b.arg.description = description.clone();
                    proof {
                        lemma_reg_of_update(args_before, i as int, self.args@[i as int]);
                        assert forall|f: Seq<char>| #[trigger]
                            reg_of(args0).contains_key(f) implies reg_of(self.args@)[f] == (if exists|
                            j: int,
                        | 0 <= j < k + 1 && mod0[j] == f {
                            ArgModel { description: description@, ..reg_of(args0)[f] }
                        } else {
                            reg_of(args0)[f]
                        }) by {
                            if f == flag@ {
                                assert(mod0[k as int] == f);
                            } else {
                                assert(reg_of(self.args@)[f] == reg_of(args_before)[f]);
                                assert((exists|j: int| 0 <= j < k + 1 && mod0[j] == f) <==> (exists|
                                    j: int,
                                | 0 <= j < k && mod0[j] == f));
                            }
                        }
                    }
                },
                None => {
                    proof {
                        assert forall|f: Seq<char>| #[trigger]
                            reg_of(args0).contains_key(f) implies reg_of(self.args@)[f] == (if exists|
                            j: int,
                        | 0 <= j < k + 1 && mod0[j] == f {
                            ArgModel { description: description@, ..reg_of(args0)[f] }
                        } else {
                            reg_of(args0)[f]
                        }) by {
                            assert(f != flag@);
                            assert((exists|j: int| 0 <= j < k + 1 && mod0[j] == f) <==> (exists|
                                j: int,
                            | 0 <= j < k && mod0[j] == f));
                        }
                    }
                },
            }
            k += 1;
        }
        proof {
            assert(self@.reg.dom() =~= old(self)@.reg.dom());
            assert forall|f: Seq<char>| #[trigger] old(self)@.reg.contains_key(f) implies self@.reg[f]
                == (if old(self)@.modifiable.contains(f) {
                ArgModel { description: description@, ..old(self)@.reg[f] }
            } else {
                old(self)@.reg[f]
            }) by {
                assert(old(self)@.modifiable.contains(f) <==> exists|j: int|
                    0 <= j < mod0.len() && mod0[j] == f);
            }
        }
    }
}

impl ArgParser {
    /// Applies a copy of `value` as the default of every flag of the most
    /// recently declared batch, binding each flag's expected kind to the
    /// value's kind. A flag whose kind is already bound must be bound to
    /// that same kind.
    pub fn default_value(&mut self, value: ArgValue)
        requires
            old(self).wf(),
            old(self)@.modifiable.len() > 0,
            forall|f: Seq<char>|
                old(self)@.modifiable.contains(f) && #[trigger] old(self)@.reg.contains_key(f)
                    ==> (old(self)@.reg[f].expected_type is None || old(self)@.reg[f].expected_type
                    == Some(value.kind())),
        ensures
            final (self).wf(),
            final (self)@.reg.dom() == old(self)@.reg.dom(),
            forall|f: Seq<char>|
                #[trigger] old(self)@.reg.contains_key(f) ==> final (self)@.reg[f] == (if old(
                    self,
                )@.modifiable.contains(f) {
                    ArgModel {
                        default_value: Some(value.model()),
                        expected_type: Some(value.kind()),
                        ..old(self)@.reg[f]
                    }
                } else {
                    old(self)@.reg[f]
                }),
            final (self)@.keys == old(self)@.keys,
            final (self)@.batches == old(self)@.batches,
            final (self)@.modifiable == old(self)@.modifiable,
            final (self)@.required == old(self)@.required,
            final (self)@.other == old(self)@.other,
            final (self)@.help == old(self)@.help,
            final (self)@.program_name == old(self)@.program_name,
            final (self)@.program_version == old(self)@.program_version,
            final (self).settings == old(self).settings,
    {
        let ghost args0 = old(self).args@;
        let ghost mod0 = old(self)@.modifiable;
        let mut k: usize = 0;
        while k < self.modifiable_args.len()
            invariant
                0 <= k <= mod0.len(),
                self.modifiable_args == old(self).modifiable_args,
                mod0 == old(self)@.modifiable,
                keys_unique(args0),
                self.args@.len() == args0.len(),
                forall|j: int| 0 <= j < args0.len() ==> #[trigger] self.args@[j].flag@
                    == args0[j].flag@,
                keys_unique(self.args@),
                forall|f: Seq<char>|
                    #[trigger] reg_of(self.args@).contains_key(f) <==> reg_of(args0).contains_key(
                        f,
                    ),
                forall|f: Seq<char>|
                    #[trigger] reg_of(args0).contains_key(f) ==> reg_of(self.args@)[f] == (if exists|
                        j: int,
                    | 0 <= j < k && mod0[j] == f {
                        ArgModel {
                            default_value: Some(value.model()),
                            expected_type: Some(value.kind()),
                            ..reg_of(args0)[f]
                        }
                    } else {
                        reg_of(args0)[f]
                    }),
                self.required_args == old(self).required_args,
                self.print_arg_vecs == old(self).print_arg_vecs,
                self.p_info == old(self).p_info,
                self.other_args == old(self).other_args,
                self.help == old(self).help,
                self.settings == old(self).settings,
            decreases mod0.len() - k,
        {
            let flag = self.modifiable_args[k].clone();
            assert(flag@ == mod0[k as int]);
            match find_index(&self.args, flag.as_str()) {
                Some(i) => {
                    let ghost args_before = self.args@;
                    proof {
                        lemma_reg_of_index(args_before, i as int);
                    }
                    let b = &mut self.args[i];
                    b.arg.default_value = Some(value.duplicate());
                    b.arg.expected_type = Some(value.kind_of());
                    proof {
                        lemma_reg_of_update(args_before, i as int, self.args@[i as int]);
                        assert forall|f: Seq<char>| #[trigger]
                            reg_of(args0).contains_key(f) implies reg_of(self.args@)[f] == (if exists|
                            j: int,
                        | 0 <= j < k + 1 && mod0[j] == f {
                            ArgModel {
                                default_value: Some(value.model()),
                                expected_type: Some(value.kind()),
                                ..reg_of(args0)[f]
                            }
                        } else {
                            reg_of(args0)[f]
                        }) by {
                            if f == flag@ {
                                assert(mod0[k as int] == f);
                            } else {
                                assert(reg_of(self.args@)[f] == reg_of(args_before)[f]);
                                assert((exists|j: int| 0 <= j < k + 1 && mod0[j] == f) <==> (exists|
                                    j: int,
                                | 0 <= j < k && mod0[j] == f));
                            }
                        }
                    }
                },
                None => {
                    proof {
                        assert forall|f: Seq<char>| #[trigger]
                            reg_of(args0).contains_key(f) implies reg_of(self.args@)[f] == (if exists|
                            j: int,
                        | 0 <= j < k + 1 && mod0[j] == f {
                            ArgModel {
                                default_value: Some(value.model()),
                                expected_type: Some(value.kind()),
                                ..reg_of(args0)[f]
                            }
                        } else {
                            reg_of(args0)[f]
                        }) by {
                            assert(f != flag@);
                            assert((exists|j: int| 0 <= j < k + 1 && mod0[j] == f) <==> (exists|
                                j: int,
                            | 0 <= j < k && mod0[j] == f));
                        }
                    }
                },
            }
            k += 1;
        }
        proof {
            assert(self@.reg.dom() =~= old(self)@.reg.dom());
            assert forall|f: Seq<char>| #[trigger] old(self)@.reg.contains_key(f) implies self@.reg[f]
                == (if old(self)@.modifiable.contains(f) {
                ArgModel {
                    default_value: Some(value.model()),
                    expected_type: Some(value.kind()),
                    ..old(self)@.reg[f]
                }
            } else {
                old(self)@.reg[f]
            }) by {
                assert(old(self)@.modifiable.contains(f) <==> exists|j: int|
                    0 <= j < mod0.len() && mod0[j] == f);
            }
        }
    }

    /// Binds the expected kind of every flag of the most recently declared
    /// batch to `t`. A flag whose kind is already bound must be bound to
    /// that same kind.
    pub fn expected_type(&mut self, t: TypeTag)
        requires
            old(self).wf(),
            old(self)@.modifiable.len() > 0,
            forall|f: Seq<char>|
                old(self)@.modifiable.contains(f) && #[trigger] old(self)@.reg.contains_key(f)
                    ==> (old(self)@.reg[f].expected_type is None || old(self)@.reg[f].expected_type
                    == Some(t)),
        ensures
            final (self).wf(),
            final (self)@.reg.dom() == old(self)@.reg.dom(),
            forall|f: Seq<char>|
                #[trigger] old(self)@.reg.contains_key(f) ==> final (self)@.reg[f] == (if old(
                    self,
                )@.modifiable.contains(f) {
                    ArgModel { expected_type: Some(t), ..old(self)@.reg[f] }
                } else {
                    old(self)@.reg[f]
                }),
            final (self)@.keys == old(self)@.keys,
            final (self)@.batches == old(self)@.batches,
            final (self)@.modifiable == old(self)@.modifiable,
            final (self)@.required == old(self)@.required,
            final (self)@.other == old(self)@.other,
            final (self)@.help == old(self)@.help,
            final (self)@.program_name == old(self)@.program_name,
            final (self)@.program_version == old(self)@.program_version,
            final (self).settings == old(self).settings,
    {
        let ghost args0 = old(self).args@;
        let ghost mod0 = old(self)@.modifiable;
        let mut k: usize = 0;
        while k < self.modifiable_args.len()
            invariant
                0 <= k <= mod0.len(),
                self.modifiable_args == old(self).modifiable_args,
                mod0 == old(self)@.modifiable,
                keys_unique(args0),
                self.args@.len() == args0.len(),
                forall|j: int| 0 <= j < args0.len() ==> #[trigger] self.args@[j].flag@
                    == args0[j].flag@,
                keys_unique(self.args@),
                forall|f: Seq<char>|
                    #[trigger] reg_of(self.args@).contains_key(f) <==> reg_of(args0).contains_key(
                        f,
                    ),
                forall|f: Seq<char>|
                    #[trigger] reg_of(args0).contains_key(f) ==> reg_of(self.args@)[f] == (if exists|
                        j: int,
                    | 0 <= j < k && mod0[j] == f {
                        ArgModel { expected_type: Some(t), ..reg_of(args0)[f] }
                    } else {
                        reg_of(args0)[f]
                    }),
                self.required_args == old(self).required_args,
                self.print_arg_vecs == old(self).print_arg_vecs,
                self.p_info == old(self).p_info,
                self.other_args == old(self).other_args,
                self.help == old(self).help,
                self.settings == old(self).settings,
            decreases mod0.len() - k,
        {
            let flag = self.modifiable_args[k].clone();
            assert(flag@ == mod0[k as int]);
            match find_index(&self.args, flag.as_str()) {
                Some(i) => {
                    let ghost args_before = self.args@;
                    proof {
                        lemma_reg_of_index(args_before, i as int);
                    }
                    let b = &mut self.args[i];
                    b.arg.expected_type = Some(t);
                    proof {
                        lemma_reg_of_update(args_before, i as int, self.args@[i as int]);
                        assert forall|f: Seq<char>| #[trigger]
                            reg_of(args0).contains_key(f) implies reg_of(self.args@)[f] == (if exists|
                            j: int,
                        | 0 <= j < k + 1 && mod0[j] == f {
                            ArgModel { expected_type: Some(t), ..reg_of(args0)[f] }
                        } else {
                            reg_of(args0)[f]
                        }) by {
                            if f == flag@ {
                                assert(mod0[k as int] == f);
                            } else {
                                assert(reg_of(self.args@)[f] == reg_of(args_before)[f]);
                                assert((exists|j: int| 0 <= j < k + 1 && mod0[j] == f) <==> (exists|
                                    j: int,
                                | 0 <= j < k && mod0[j] == f));
                            }
                        }
                    }
                },
                None => {
                    proof {
                        assert forall|f: Seq<char>| #[trigger]
                            reg_of(args0).contains_key(f) implies reg_of(self.args@)[f] == (if exists|
                            j: int,
                        | 0 <= j < k + 1 && mod0[j] == f {
                            ArgModel { expected_type: Some(t), ..reg_of(args0)[f] }
                        } else {
                            reg_of(args0)[f]
                        }) by {
                            assert(f != flag@);
                            assert((exists|j: int| 0 <= j < k + 1 && mod0[j] == f) <==> (exists|
                                j: int,
                            | 0 <= j < k && mod0[j] == f));
                        }
                    }
                },
            }
            k += 1;
        }
        proof {
            assert(self@.reg.dom() =~= old(self)@.reg.dom());
            assert forall|f: Seq<char>| #[trigger] old(self)@.reg.contains_key(f) implies self@.reg[f]
                == (if old(self)@.modifiable.contains(f) {
                ArgModel { expected_type: Some(t), ..old(self)@.reg[f] }
            } else {
                old(self)@.reg[f]
            }) by {
                assert(old(self)@.modifiable.contains(f) <==> exists|j: int|
                    0 <= j < mod0.len() && mod0[j] == f);
            }
        }
    }
}

/// Returns a copy of each string of `v`, in order.
pub(crate) fn clone_strings(v: &Vec<String>) -> (r: Vec<String>)
    ensures
        r@ == v@,
{
    let mut r: Vec<String> = Vec::new();
    let mut i: usize = 0;
    while i < v.len()
        invariant
            0 <= i <= v@.len(),
            r@.len() == i,
            forall|j: int| 0 <= j < i ==> r@[j] == v@[j],
        decreases v@.len() - i,
    {
        r.push(v[i].clone());
        i += 1;
    }
    proof {
        assert(r@ =~= v@);
    }
    r
}

/// The first registry index carrying `flag`, if `flag` is declared.
pub(crate) fn find_index(args: &Vec<Binding>, flag: &str) -> (r: Option<usize>)
    ensures
        match r {
            Some(i) => i < args@.len() && args@[i as int].flag@ == flag@ && reg_of(
                args@,
            ).contains_key(flag@),
            None => !reg_of(args@).contains_key(flag@),
        },
{
    let mut i: usize = 0;
    while i < args.len()
        invariant
            0 <= i <= args@.len(),
            forall|j: int| 0 <= j < i ==> args@[j].flag@ != flag@,
        decreases args@.len() - i,
    {
        if str_eq(args[i].flag.as_str(), flag) {
            proof {
                lemma_reg_of_contains(args@, flag@);
            }
            return Some(i);
        }
        i += 1;
    }
    proof {
        lemma_reg_of_contains(args@, flag@);
    }
    None
}

} // verus!
