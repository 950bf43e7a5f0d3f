//! The library's laws: what holds of every registry, every scan and every
//! retrieval, stated over the models and proved once and for all.

use vstd::prelude::*;

use crate::constants::ARG_MULTIPLE;
use crate::constants::ARG_REQUIRES_NEXT;
use crate::errors::GetError;
use crate::errors::ParserError;
use crate::parse::added_of;
use crate::parse::init_scan;
use crate::parse::mark_matched;
use crate::parse::outcome_state;
use crate::parse::push_added;
use crate::parse::push_other;
use crate::parse::scan;
use crate::parse::scan_final;
use crate::parse::scan_verdict;
use crate::parse::ScanOutcome;
use crate::parse::ScanState;
use crate::registry::ArgParser;
use crate::registry::ParserModel;
use crate::retrieve::get_spec;
use crate::store::ArgModel;
use crate::value::TypeTag;
use crate::value::ValueModel;

verus! {

/// Declaring a batch holding an already-declared flag is never admitted,
/// whatever the flag's position in the batch.
pub proof fn lemma_duplicate_declaration_rejected(p: ArgParser, flags: Seq<String>, i: int)
    requires
        0 <= i < flags.len(),
        p@.reg.contains_key(flags[i]@),
    ensures
        !p.can_declare(flags),
{
}

/// Declaring a batch that repeats a flag within itself is never admitted
/// either.
pub proof fn lemma_repeated_flag_rejected(p: ArgParser, flags: Seq<String>, i: int, j: int)
    requires
        0 <= i < j < flags.len(),
        flags[i]@ == flags[j]@,
    ensures
        !p.can_declare(flags),
{
}

/// A successful retrieval hands out either the parsed occurrences or the
/// declared default alone — the two are never merged.
pub proof fn lemma_retrieve_no_merge(m: ParserModel, f: Seq<char>, kind: TypeTag)
    requires
        get_spec(m, f, kind) is Ok,
    ensures
        m.reg.contains_key(f),
        ({
            let vs = get_spec(m, f, kind)->Ok_0;
            ||| (m.reg[f].values.len() > 0 && vs == m.reg[f].values)
            ||| (m.reg[f].values.len() == 0 && m.reg[f].default_value is Some && vs == seq![
                m.reg[f].default_value->0,
            ])
        }),
{
}

/// A scan never touches the values of a flag that occurs nowhere in the
/// token stream.
pub proof fn lemma_scan_untouched(
    reg: Map<Seq<char>, ArgModel>,
    argv: Seq<Seq<char>>,
    k: int,
    st: ScanState,
    ai: bool,
    f: Seq<char>,
)
    requires
        !argv.contains(f),
    ensures
        added_of(outcome_state(scan(reg, argv, k, st, ai)), f) == added_of(st, f),
    decreases argv.len() - k,
{
    if 0 <= k < argv.len() {
        let t = argv[k];
        assert(t != f);
        if reg.contains_key(t) {
            let opts = reg[t].options;
            if !(st.checked.contains(t) && opts & ARG_MULTIPLE == 0) {
                let st1 = mark_matched(st, t);
                if opts & ARG_REQUIRES_NEXT != 0 {
                    if k + 1 < argv.len() {
                        lemma_scan_untouched(
                            reg,
                            argv,
                            k + 2,
                            push_added(st1, t, ValueModel::Str(argv[k + 1])),
                            ai,
                            f,
                        );
                    }
                } else {
                    lemma_scan_untouched(
                        reg,
                        argv,
                        k + 1,
                        push_added(st1, t, ValueModel::Bool(true)),
                        ai,
                        f,
                    );
                }
            }
        } else {
            lemma_scan_untouched(reg, argv, k + 1, push_other(st, t, ai), ai, f);
        }
    }
}

/// A required flag that occurs nowhere in the token stream stays
/// outstanding through the whole scan.
pub proof fn lemma_scan_required_persists(
    reg: Map<Seq<char>, ArgModel>,
    argv: Seq<Seq<char>>,
    k: int,
    st: ScanState,
    ai: bool,
    f: Seq<char>,
)
    requires
        st.required.contains(f),
        !argv.contains(f),
    ensures
        outcome_state(scan(reg, argv, k, st, ai)).required.contains(f),
    decreases argv.len() - k,
{
    if 0 <= k < argv.len() {
        let t = argv[k];
        assert(t != f);
        if reg.contains_key(t) {
            let opts = reg[t].options;
            if !(st.checked.contains(t) && opts & ARG_MULTIPLE == 0) {
                let st1 = mark_matched(st, t);
                assert(st1.required.contains(f));
                if opts & ARG_REQUIRES_NEXT != 0 {
                    if k + 1 < argv.len() {
                        lemma_scan_required_persists(
                            reg,
                            argv,
                            k + 2,
                            push_added(st1, t, ValueModel::Str(argv[k + 1])),
                            ai,
                            f,
                        );
                    }
                } else {
                    lemma_scan_required_persists(
                        reg,
                        argv,
                        k + 1,
                        push_added(st1, t, ValueModel::Bool(true)),
                        ai,
                        f,
                    );
                }
            }
        } else {
            lemma_scan_required_persists(
                reg,
                argv,
                k + 1,
                push_other(st, t, ai),
                ai,
                f,
            );
        }
    }
}

/// A completed parse with a required flag absent from the input yields
/// `RequirementNotMet`, even when unrecognized tokens were pending as
/// `InvalidArg`.
pub proof fn lemma_required_not_met(
    m2: ParserModel,
    argv: Seq<Seq<char>>,
    f: Seq<char>,
    ai: bool,
)
    requires
        m2.required.contains(f),
        !argv.contains(f),
        scan(m2.reg, argv, 0, init_scan(m2.required), ai) is Done,
    ensures
        scan_verdict(scan(m2.reg, argv, 0, init_scan(m2.required), ai)) == Err::<(), ParserError>(
            ParserError::RequirementNotMet,
        ),
{
    lemma_scan_required_persists(m2.reg, argv, 0, init_scan(m2.required), ai, f);
    let stf = outcome_state(scan(m2.reg, argv, 0, init_scan(m2.required), ai));
    assert(stf.required.contains(f));
    assert(!stf.required.is_empty());
}

/// Declaring a default of the flag's bound kind and then parsing a token
/// stream in which the flag never occurs retrieves exactly the default.
pub proof fn lemma_default_round_trip(
    m2: ParserModel,
    argv: Seq<Seq<char>>,
    f: Seq<char>,
    d: ValueModel,
    ai: bool,
)
    requires
        m2.reg.contains_key(f),
        m2.reg[f].values.len() == 0,
        m2.reg[f].default_value == Some(d),
        m2.reg[f].expected_type == Some(d.kind()),
        !argv.contains(f),
    ensures
        ({
            let out = scan(m2.reg, argv, 0, init_scan(m2.required), ai);
            get_spec(scan_final(m2, out), f, d.kind()) == Ok::<Seq<ValueModel>, GetError>(
                seq![d],
            )
        }),
{
    let out = scan(m2.reg, argv, 0, init_scan(m2.required), ai);
    let st0 = init_scan(m2.required);
    lemma_scan_untouched(m2.reg, argv, 0, st0, ai, f);
    let stf = outcome_state(out);
    assert(added_of(stf, f) == added_of(st0, f));
    assert(added_of(st0, f) =~= Seq::<ValueModel>::empty());
    let mf = scan_final(m2, out);
    assert(mf.reg.contains_key(f));
    assert(mf.reg[f].values =~= m2.reg[f].values + added_of(stf, f));
    assert(mf.reg[f].values.len() == 0);
    assert(mf.reg[f].default_value == Some(d));
    assert(mf.reg[f].expected_type == Some(d.kind()));
}

/// A value-consuming flag standing as the final token, not barred as a
/// repeat of a non-repeatable flag, aborts the scan with `IndexOutOfBound`:
/// no requirement check ever runs.
pub proof fn lemma_requires_next_at_end(
    reg: Map<Seq<char>, ArgModel>,
    argv: Seq<Seq<char>>,
    st: ScanState,
    ai: bool,
)
    requires
        argv.len() > 0,
        reg.contains_key(argv.last()),
        reg[argv.last()].options & ARG_REQUIRES_NEXT != 0,
        !(st.checked.contains(argv.last()) && reg[argv.last()].options
            & ARG_MULTIPLE == 0),
    ensures
        scan(reg, argv, argv.len() - 1, st, ai) == (ScanOutcome::Abort {
            err: ParserError::IndexOutOfBound,
            st: mark_matched(st, argv.last()),
        }),
        scan_verdict(scan(reg, argv, argv.len() - 1, st, ai)) == Err::<(), ParserError>(
            ParserError::IndexOutOfBound,
        ),
{
}

/// A non-repeatable flag already matched aborts its repeat occurrence with
/// `DuplicateArg`, leaving every accumulated value exactly as it stood.
pub proof fn lemma_duplicate_aborts(
    reg: Map<Seq<char>, ArgModel>,
    argv: Seq<Seq<char>>,
    k: int,
    st: ScanState,
    ai: bool,
)
    requires
        0 <= k < argv.len(),
        reg.contains_key(argv[k]),
        st.checked.contains(argv[k]),
        reg[argv[k]].options & ARG_MULTIPLE == 0,
    ensures
        scan(reg, argv, k, st, ai) == (ScanOutcome::Abort { err: ParserError::DuplicateArg, st }),
        scan_verdict(scan(reg, argv, k, st, ai)) == Err::<(), ParserError>(
            ParserError::DuplicateArg,
        ),
{
}

/// A scan only ever appends to a flag's values: what stood at entry stands
/// untouched, in place, at the end.
pub proof fn lemma_scan_appends_only(
    reg: Map<Seq<char>, ArgModel>,
    argv: Seq<Seq<char>>,
    k: int,
    st: ScanState,
    ai: bool,
    f: Seq<char>,
)
    ensures
        added_of(outcome_state(scan(reg, argv, k, st, ai)), f).len() >= added_of(st, f).len(),
        forall|q: int|
            0 <= q < added_of(st, f).len() ==> added_of(outcome_state(scan(reg, argv, k, st, ai)), f)[q]
                == #[trigger] added_of(st, f)[q],
    decreases argv.len() - k,
{
    if 0 <= k < argv.len() {
        let t = argv[k];
        if reg.contains_key(t) {
            let opts = reg[t].options;
            if !(st.checked.contains(t) && opts & ARG_MULTIPLE == 0) {
                let st1 = mark_matched(st, t);
                if opts & ARG_REQUIRES_NEXT != 0 {
                    if k + 1 < argv.len() {
                        let st2 = push_added(st1, t, ValueModel::Str(argv[k + 1]));
                        lemma_scan_appends_only(reg, argv, k + 2, st2, ai, f);
                        assert(added_of(st2, f).len() >= added_of(st, f).len());
                        let stf = outcome_state(scan(reg, argv, k, st, ai));
                        assert forall|q: int| 0 <= q < added_of(st, f).len() implies added_of(
                            stf,
                            f,
                        )[q] == #[trigger] added_of(st, f)[q] by {
                            assert(added_of(st2, f)[q] == added_of(st, f)[q]);
                        }
                    }
                } else {
                    let st2 = push_added(st1, t, ValueModel::Bool(true));
                    lemma_scan_appends_only(reg, argv, k + 1, st2, ai, f);
                    assert(added_of(st2, f).len() >= added_of(st, f).len());
                    let stf = outcome_state(scan(reg, argv, k, st, ai));
                    assert forall|q: int| 0 <= q < added_of(st, f).len() implies added_of(stf, f)[q]
                        == #[trigger] added_of(st, f)[q] by {
                        assert(added_of(st2, f)[q] == added_of(st, f)[q]);
                    }
                }
            }
        } else {
            lemma_scan_appends_only(reg, argv, k + 1, push_other(st, t, ai), ai, f);
        }
    }
}

} // verus!
