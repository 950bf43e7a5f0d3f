//! The token-stream parser: a single left-to-right pass with one token of
//! lookahead consumption.
//!
//! `scan` is the state machine's mathematical model. A token matching a
//! declared flag marks it matched (clearing it from the required set) and
//! either consumes the next token as its value (`ARG_REQUIRES_NEXT`) or
//! records a presence marker; a repeated non-`ARG_MULTIPLE` flag aborts with
//! `DuplicateArg`, a value-consuming flag with nothing following aborts with
//! `IndexOutOfBound`, and an undeclared token is collected, failing the pass
//! with `InvalidArg` afterwards unless `allow_invalid_args` is set. After a
//! completed pass an outstanding required flag wins over a pending
//! `InvalidArg`.

use vstd::prelude::*;

use crate::constants::ARG_DEFAULT;
use crate::constants::ARG_MULTIPLE;
use crate::constants::ARG_REQUIRES_NEXT;
use crate::defaults::gen_defaults_spec;
use crate::errors::ParserError;
use crate::helpgen::help_text;
use crate::registry::find_index;
use crate::registry::ArgParser;
use crate::registry::ParserModel;
use crate::store::lemma_reg_of_index;
use crate::store::lemma_reg_of_update;
use crate::store::reg_of;
use crate::store::ArgModel;
use crate::strutil::contains_str;
use crate::strutil::lemma_strset_contains;
use crate::strutil::lemma_strset_empty;
use crate::strutil::lemma_strset_push;
use crate::strutil::remove_str;
use crate::strutil::strset;
use crate::strutil::views_unique;
use crate::value::lemma_models_of_push;
use crate::value::ArgValue;
use crate::value::ValueModel;

verus! {

/// The scan's running state: the values appended per flag, the flags
/// already matched, the required flags still outstanding, the unrecognized
/// tokens collected, and whether an unrecognized token is pending as an
/// `InvalidArg` failure.
#[verifier::ext_equal]
pub ghost struct ScanState {
    pub added: Map<Seq<char>, Seq<ValueModel>>,
    pub checked: Set<Seq<char>>,
    pub required: Set<Seq<char>>,
    pub other: Seq<Seq<char>>,
    pub invalid: bool,
}

/// How a scan ends: completion, or an immediate abort with the state at the
/// moment of the abort.
#[verifier::ext_equal]
pub ghost enum ScanOutcome {
    Done { st: ScanState },
    Abort { err: ParserError, st: ScanState },
}

/// The values appended for `f` so far.
pub open spec fn added_of(st: ScanState, f: Seq<char>) -> Seq<ValueModel> {
    if st.added.contains_key(f) {
        st.added[f]
    } else {
        Seq::empty()
    }
}

/// Marks `f` matched: into the checked set, out of the required set.
pub open spec fn mark_matched(st: ScanState, f: Seq<char>) -> ScanState {
    ScanState { checked: st.checked.insert(f), required: st.required.remove(f), ..st }
}

/// Appends one value for `f`.
pub open spec fn push_added(st: ScanState, f: Seq<char>, v: ValueModel) -> ScanState {
    ScanState { added: st.added.insert(f, added_of(st, f).push(v)), ..st }
}

/// Collects an unrecognized token, recording a pending failure unless
/// `allow_invalid` is set.
pub open spec fn push_other(st: ScanState, t: Seq<char>, allow_invalid: bool) -> ScanState {
    ScanState { other: st.other.push(t), invalid: st.invalid || !allow_invalid, ..st }
}

/// The state machine, from token position `k` in state `st`.
pub open spec fn scan(
    reg: Map<Seq<char>, ArgModel>,
    argv: Seq<Seq<char>>,
    k: int,
    st: ScanState,
    allow_invalid: bool,
) -> ScanOutcome
    decreases argv.len() - k,
{
    if k < 0 || k >= argv.len() {
        ScanOutcome::Done { st }
    } else {
        let t = argv[k];
        if reg.contains_key(t) {
            let opts = reg[t].options;
            if st.checked.contains(t) && opts & ARG_MULTIPLE == 0 {
                ScanOutcome::Abort { err: ParserError::DuplicateArg, st }
            } else {
                let st1 = mark_matched(st, t);
                if opts & ARG_REQUIRES_NEXT != 0 {
                    if k + 1 >= argv.len() {
                        ScanOutcome::Abort { err: ParserError::IndexOutOfBound, st: st1 }
                    } else {
                        scan(
                            reg,
                            argv,
                            k + 2,
                            push_added(st1, t, ValueModel::Str(argv[k + 1])),
                            allow_invalid,
                        )
                    }
                } else {
                    scan(reg, argv, k + 1, push_added(st1, t, ValueModel::Bool(true)), allow_invalid)
                }
            }
        } else {
            scan(reg, argv, k + 1, push_other(st, t, allow_invalid), allow_invalid)
        }
    }
}

/// The scan's starting state, seeded with the outstanding required flags.
pub open spec fn init_scan(required: Set<Seq<char>>) -> ScanState {
    ScanState {
        added: Map::empty(),
        checked: Set::empty(),
        required,
        other: Seq::empty(),
        invalid: false,
    }
}

/// The parser model after a scan in state `st`: each flag's values extended
/// by what the scan appended, the required set as the scan left it, and the
/// unrecognized tokens collected.
pub open spec fn apply_scan(m: ParserModel, st: ScanState) -> ParserModel {
    ParserModel {
        reg: Map::new(
            |f: Seq<char>| m.reg.contains_key(f),
            |f: Seq<char>| ArgModel { values: m.reg[f].values + added_of(st, f), ..m.reg[f] },
        ),
        required: st.required,
        other: m.other + st.other,
        ..m
    }
}

/// The scan state a scan outcome carries.
pub open spec fn outcome_state(out: ScanOutcome) -> ScanState {
    match out {
        ScanOutcome::Done { st } => st,
        ScanOutcome::Abort { err, st } => st,
    }
}

/// The parser model a scan outcome leaves behind.
pub open spec fn scan_final(m: ParserModel, out: ScanOutcome) -> ParserModel {
    match out {
        ScanOutcome::Done { st } => apply_scan(m, st),
        ScanOutcome::Abort { err, st } => apply_scan(m, st),
    }
}

/// The result a scan outcome yields: an abort's error as it stands; after a
/// completed pass, an outstanding required flag first, then a pending
/// unrecognized token, then success.
pub open spec fn scan_verdict(out: ScanOutcome) -> Result<(), ParserError> {
    match out {
        ScanOutcome::Abort { err, st } => Err(err),
        ScanOutcome::Done { st } => if !st.required.is_empty() {
            Err(ParserError::RequirementNotMet)
        } else if st.invalid {
            Err(ParserError::InvalidArg)
        } else {
            Ok(())
        },
    }
}

/// The parser model after the optional pre-pass: the conventional flags
/// declared, then the help menu appended.
pub open spec fn prepass(m: ParserModel, gen_flags: bool, gen_menu: bool) -> ParserModel {
    let m1 = if gen_flags {
        gen_defaults_spec(
            gen_defaults_spec(m, seq!["-v"@, "--version"@], ARG_MULTIPLE),
            seq!["-h"@, "--help"@],
            ARG_DEFAULT,
        )
    } else {
        m
    };
    if gen_menu {
        ParserModel { help: m1.help + help_text(m1), ..m1 }
    } else {
        m1
    }
}

impl ArgParser {
    /// Runs the pre-pass as the settings direct, then parses `argv`: the
    /// model moves to `scan_final` of the scan from position zero, and the
    /// result is that scan's verdict. An empty `argv` parses to `Ok` exactly
    /// when `allow_no_args` is set, moving the model through the pre-pass
    /// alone.
    pub fn parse(&mut self, argv: &Vec<String>) -> (r: Result<(), ParserError>)
        requires
            old(self).wf(),
        ensures
            final (self).wf(),
            final (self).settings == old(self).settings,
            ({
                let m2 = prepass(
                    old(self)@,
                    old(self).settings.generate_default_flags,
                    old(self).settings.generate_help_menu,
                );
                if argv@.len() == 0 {
                    &&& final (self)@ == m2
                    &&& r == (if old(self).settings.allow_no_args {
                        Ok::<(), ParserError>(())
                    } else {
                        Err::<(), ParserError>(ParserError::NoArgs)
                    })
                } else {
                    let out = scan(
                        m2.reg,
                        argv.deep_view(),
                        0,
                        init_scan(m2.required),
                        old(self).settings.allow_invalid_args,
                    );
                    &&& final (self)@ == scan_final(m2, out)
                    &&& r == scan_verdict(out)
                }
            }),
    {
        let ghost m0 = old(self)@;
        if self.settings.generate_default_flags {
            let mut va: Vec<String> = Vec::new();
            va.push(String::from_str("-v"));
            va.push(String::from_str("--version"));
            proof {
                reveal_strlit("-v");
                reveal_strlit("--version");
                assert(va@.len() == 2);
                assert(va@[0]@ == "-v"@);
                assert(va@[1]@ == "--version"@);
                assert("-v"@.len() == 2);
                assert("--version"@.len() == 9);
                assert(views_unique(va@));
                assert(va.deep_view() =~= seq!["-v"@, "--version"@]);
            }
            self.gen_default_args(&va, ARG_MULTIPLE);
            let mut ha: Vec<String> = Vec::new();
            ha.push(String::from_str("-h"));
            ha.push(String::from_str("--help"));
            proof {
                reveal_strlit("-h");
                reveal_strlit("--help");
                assert(ha@.len() == 2);
                assert(ha@[0]@ == "-h"@);
                assert(ha@[1]@ == "--help"@);
                assert("-h"@.len() == 2);
                assert("--help"@.len() == 6);
                assert(views_unique(ha@));
                assert(ha.deep_view() =~= seq!["-h"@, "--help"@]);
            }
            self.gen_default_args(&ha, ARG_DEFAULT);
        }
        if self.settings.generate_help_menu {
            self.gen_help();
        }
        let ghost m2 = self@;
        proof {
            assert(m2 == prepass(
                m0,
                old(self).settings.generate_default_flags,
                old(self).settings.generate_help_menu,
            ));
        }
        if argv.len() == 0 {
            if self.settings.allow_no_args {
                return Ok(());
            } else {
                return Err(ParserError::NoArgs);
            }
        }
        let ghost argvv = argv.deep_view();
        let ghost ai = old(self).settings.allow_invalid_args;
        let ghost st0 = init_scan(m2.required);
        let ghost mut st = st0;
        proof {
            assert(self@ =~~= apply_scan(m2, st0));
        }
        let mut checked: Vec<String> = Vec::new();
        let mut invalid: bool = false;
        let mut k: usize = 0;
        while k < argv.len()
            invariant
                self.wf(),
                0 <= k <= argvv.len(),
                argvv == argv.deep_view(),
                argvv.len() == argv@.len(),
                argvv.len() > 0,
                self.settings == old(self).settings,
                ai == old(self).settings.allow_invalid_args,
                m2 == prepass(
                    old(self)@,
                    old(self).settings.generate_default_flags,
                    old(self).settings.generate_help_menu,
                ),
                st0 == init_scan(m2.required),
                self@ == apply_scan(m2, st),
                views_unique(checked@),
                strset(checked@) == st.checked,
                invalid == st.invalid,
                scan(m2.reg, argvv, k as int, st, ai) == scan(m2.reg, argvv, 0, st0, ai),
            decreases argvv.len() - k,
        {
            let ghost st_entry = st;
            let token = &argv[k];
            proof {
                assert(token@ == argvv[k as int]);
            }
            match find_index(&self.args, token.as_str()) {
                Some(i) => {
                    proof {
                        lemma_reg_of_index(self.args@, i as int);
                        assert(self@.reg.contains_key(token@));
                        assert(m2.reg.contains_key(token@));
                        assert(self@.reg[token@] == self.args@[i as int].arg@);
                        assert(self@.reg[token@].options == m2.reg[token@].options);
                    }
                    let opts = self.args[i].arg.options;
                    proof {
                        assert(opts == m2.reg[token@].options);
                    }
                    let already = contains_str(&checked, token.as_str());
                    if already && (opts & ARG_MULTIPLE) == 0 {
                        proof {
                            assert(scan(m2.reg, argvv, k as int, st, ai) == (ScanOutcome::Abort {
                                err: ParserError::DuplicateArg,
                                st,
                            }));
                        }
                        return Err(ParserError::DuplicateArg);
                    }
                    if !already {
                        let ghost checked_before = checked@;
                        checked.push(token.clone());
                        proof {
                            lemma_strset_push(checked_before, checked@.last());
                            lemma_strset_contains(checked_before, token@);
                        }
                    }
                    let ghost req_before = self.required_args@;
                    remove_str(&mut self.required_args, token.as_str());
                    proof {
                        assert forall|j: int| 0 <= j < self.required_args@.len() implies reg_of(
                            self.args@,
                        ).contains_key(#[trigger] self.required_args@[j]@) by {
                            lemma_strset_contains(self.required_args@, self.required_args@[j]@);
                            assert(strset(self.required_args@).contains(self.required_args@[j]@));
                            assert(strset(req_before).contains(self.required_args@[j]@));
                            lemma_strset_contains(req_before, self.required_args@[j]@);
                            let q = choose|q: int|
                                0 <= q < req_before.len() && req_before[q]@ == self.required_args@[
                                    j
                                ]@;
                            assert(reg_of(self.args@).contains_key(req_before[q]@));
                        }
                        st = mark_matched(st, token@);
                        if st_entry.checked.contains(token@) {
                            assert(st.checked =~= st_entry.checked);
                            assert(strset(checked@) == st.checked);
                        }
                        assert(self@ =~~= apply_scan(m2, st));
                    }
                    if (opts & ARG_REQUIRES_NEXT) != 0 {
                        if k + 1 >= argv.len() {
                            proof {
                                assert(scan(m2.reg, argvv, k as int, st_entry, ai)
                                    == (ScanOutcome::Abort {
                                    err: ParserError::IndexOutOfBound,
                                    st,
                                }));
                            }
                            return Err(ParserError::IndexOutOfBound);
                        }
                        let val = argv[k + 1].clone();
                        proof {
                            assert(val@ == argvv[k + 1]);
                        }
                        let ghost args_before = self.args@;
                        let b = &mut self.args[i];
                        b.arg.values.push(ArgValue::Str(val));
                        proof {
                            lemma_models_of_push(
                                args_before[i as int].arg.values@,
                                self.args@[i as int].arg.values@.last(),
                            );
                            lemma_reg_of_update(args_before, i as int, self.args@[i as int]);
                            st = push_added(st, token@, ValueModel::Str(argvv[k + 1]));
                            assert forall|f: Seq<char>| #[trigger]
                                m2.reg.contains_key(f) implies self@.reg[f] == apply_scan(
                                m2,
                                st,
                            ).reg[f] by {
                                if f == token@ {
                                    assert(self@.reg[f].values =~= m2.reg[f].values + added_of(
                                        st,
                                        f,
                                    ));
                                    assert(self@.reg[f] =~= apply_scan(m2, st).reg[f]);
                                } else {
                                    assert(added_of(st, f) == added_of(st_entry, f));
                                }
                            }
                            assert(self@.reg =~= apply_scan(m2, st).reg);
                            assert(self@ =~~= apply_scan(m2, st));
                            assert(scan(m2.reg, argvv, k as int, st_entry, ai) == scan(
                                m2.reg,
                                argvv,
                                k + 2,
                                st,
                                ai,
                            ));
                        }
                        k += 2;
                    } else {
                        let ghost args_before = self.args@;
                        let b = &mut self.args[i];
                        b.arg.values.push(ArgValue::Bool(true));
                        proof {
                            lemma_models_of_push(
                                args_before[i as int].arg.values@,
                                self.args@[i as int].arg.values@.last(),
                            );
                            lemma_reg_of_update(args_before, i as int, self.args@[i as int]);
                            st = push_added(st, token@, ValueModel::Bool(true));
                            assert forall|f: Seq<char>| #[trigger]
                                m2.reg.contains_key(f) implies self@.reg[f] == apply_scan(
                                m2,
                                st,
                            ).reg[f] by {
                                if f == token@ {
                                    assert(self@.reg[f].values =~= m2.reg[f].values + added_of(
                                        st,
                                        f,
                                    ));
                                    assert(self@.reg[f] =~= apply_scan(m2, st).reg[f]);
                                } else {
                                    assert(added_of(st, f) == added_of(st_entry, f));
                                }
                            }
                            assert(self@.reg =~= apply_scan(m2, st).reg);
                            assert(self@ =~~= apply_scan(m2, st));
                            assert(scan(m2.reg, argvv, k as int, st_entry, ai) == scan(
                                m2.reg,
                                argvv,
                                k + 1,
                                st,
                                ai,
                            ));
                        }
                        k += 1;
                    }
                },
                None => {
                    proof {
                        assert(!m2.reg.contains_key(token@));
                    }
                    let ghost odv = self.other_args.deep_view();
                    self.other_args.push(token.clone());
                    if !self.settings.allow_invalid_args {
                        invalid = true;
                    }
                    proof {
                        st = push_other(st, token@, ai);
                        assert(odv == m2.other + st_entry.other);
                        assert(self.other_args.deep_view() =~= odv.push(token@));
                        assert(odv.push(token@) =~= m2.other + st_entry.other.push(token@));
                        assert(self@ =~~= apply_scan(m2, st));
                        assert(scan(m2.reg, argvv, k as int, st_entry, ai) == scan(
                            m2.reg,
                            argvv,
                            k + 1,
                            st,
                            ai,
                        ));
                    }
                    k += 1;
                },
            }
        }
        proof {
            assert(scan(m2.reg, argvv, k as int, st, ai) == (ScanOutcome::Done { st }));
            lemma_strset_empty(self.required_args@);
        }
        if self.required_args.len() > 0 {
            return Err(ParserError::RequirementNotMet);
        }
        if invalid {
            return Err(ParserError::InvalidArg);
        }
        Ok(())
    }
}

} // verus!
