//! The optional pre-pass that declares the conventional `-v`/`--version` and
//! `-h`/`--help` flags before parsing.
//!
//! Flags of the batch that are already declared are left alone; the fresh
//! ones are registered and joined onto the batch of the last such flag found
//! in the display layout, or appended as a batch of their own.

use vstd::prelude::*;

use crate::registry::find_index;
use crate::registry::ArgParser;
use crate::registry::ParserModel;
use crate::store::fresh_arg;
use crate::store::keys_unique;
use crate::store::lemma_reg_of_contains;
use crate::store::lemma_reg_of_push;
use crate::store::reg_of;
use crate::store::ArgModel;
use crate::store::Argument;
use crate::store::Binding;
use crate::strutil::contains_str;
use crate::strutil::lemma_strset_contains;
use crate::strutil::strset;
use crate::strutil::views_unique;

verus! {

/// The flags of `dflags` that are not in `reg`, in order.
pub open spec fn absent_of(reg: Map<Seq<char>, ArgModel>, dflags: Seq<Seq<char>>) -> Seq<Seq<char>>
    decreases dflags.len(),
{
    if dflags.len() == 0 {
        Seq::empty()
    } else {
        let rest = absent_of(reg, dflags.drop_last());
        if reg.contains_key(dflags.last()) {
            rest
        } else {
            rest.push(dflags.last())
        }
    }
}

/// A flag is absent exactly when listed and undeclared.
pub proof fn lemma_absent_contains(reg: Map<Seq<char>, ArgModel>, dflags: Seq<Seq<char>>, f: Seq<char>)
    ensures
        absent_of(reg, dflags).contains(f) <==> (dflags.contains(f) && !reg.contains_key(f)),
    decreases dflags.len(),
{
    if dflags.len() > 0 {
        lemma_absent_contains(reg, dflags.drop_last(), f);
        if dflags.contains(f) {
            let i = choose|i: int| 0 <= i < dflags.len() && dflags[i] == f;
            if i < dflags.len() - 1 {
                assert(dflags.drop_last()[i] == f);
                assert(dflags.drop_last().contains(f));
            }
        }
        if dflags.drop_last().contains(f) {
            let i = choose|i: int| 0 <= i < dflags.drop_last().len() && dflags.drop_last()[i] == f;
            assert(dflags[i] == f);
            assert(dflags.contains(f));
        }
        if dflags.last() == f {
            assert(dflags[dflags.len() - 1] == f);
            assert(dflags.contains(f));
        }
        assert(dflags.contains(f) <==> (dflags.drop_last().contains(f) || dflags.last() == f));
        if absent_of(reg, dflags).contains(f) {
            if !reg.contains_key(dflags.last()) {
                let s = absent_of(reg, dflags.drop_last());
                assert(absent_of(reg, dflags) == s.push(dflags.last()));
                let i = choose|i: int|
                    0 <= i < s.push(dflags.last()).len() && s.push(dflags.last())[i] == f;
                if i < s.len() {
                    assert(s.contains(f));
                }
            }
        }
        if dflags.contains(f) && !reg.contains_key(f) {
            if dflags.last() == f {
                let s = absent_of(reg, dflags.drop_last());
                assert(absent_of(reg, dflags)[s.len() as int] == f);
            } else {
                assert(absent_of(reg, dflags.drop_last()).contains(f));
                let s = absent_of(reg, dflags.drop_last());
                let i = choose|i: int| 0 <= i < s.len() && s[i] == f;
                if !reg.contains_key(dflags.last()) {
                    assert(s.push(dflags.last())[i] == f);
                }
            }
        }
    }
}

/// Membership in a pushed flag list is membership in the list or equality
/// with the pushed flag.
pub proof fn lemma_seq_push_contains(s: Seq<Seq<char>>, x: Seq<char>, f: Seq<char>)
    ensures
        s.push(x).contains(f) <==> (s.contains(f) || f == x),
{
    if s.push(x).contains(f) {
        let q = choose|q: int| 0 <= q < s.push(x).len() && s.push(x)[q] == f;
        if q < s.len() {
            assert(s[q] == f);
        }
    }
    if s.contains(f) {
        let q = choose|q: int| 0 <= q < s.len() && s[q] == f;
        assert(s.push(x)[q] == f);
    }
    assert(s.push(x)[s.len() as int] == x);
}

/// The first batch of the layout containing `f`, if any.
pub open spec fn find_batch(batches: Seq<Seq<Seq<char>>>, f: Seq<char>) -> Option<int>
    decreases batches.len(),
{
    if batches.len() == 0 {
        None
    } else if batches[0].contains(f) {
        Some(0int)
    } else {
        match find_batch(batches.drop_first(), f) {
            Some(i) => Some(i + 1),
            None => None,
        }
    }
}

/// `find_batch` returns the least batch index containing `f`, or `None` when
/// no batch does.
pub proof fn lemma_find_batch(batches: Seq<Seq<Seq<char>>>, f: Seq<char>)
    ensures
        match find_batch(batches, f) {
            Some(i) => 0 <= i < batches.len() && batches[i].contains(f) && forall|j: int|
                0 <= j < i ==> !(#[trigger] batches[j]).contains(f),
            None => forall|j: int|
                0 <= j < batches.len() ==> !(#[trigger] batches[j]).contains(f),
        },
    decreases batches.len(),
{
    if batches.len() > 0 && !batches[0].contains(f) {
        lemma_find_batch(batches.drop_first(), f);
        assert forall|j: int|
            0 <= j < batches.drop_first().len() implies #[trigger] batches.drop_first()[j]
            == batches[j + 1] by {}
        match find_batch(batches.drop_first(), f) {
            Some(i) => {
                assert(batches.drop_first()[i] == batches[i + 1]);
                assert forall|j: int| 0 <= j < i + 1 implies !(#[trigger] batches[j]).contains(
                    f,
                ) by {
                    if j > 0 {
                        assert(batches.drop_first()[j - 1] == batches[j]);
                        assert(!batches.drop_first()[j - 1].contains(f));
                    }
                }
            },
            None => {
                assert forall|j: int| 0 <= j < batches.len() implies !(
                #[trigger] batches[j]).contains(f) by {
                    if j > 0 {
                        assert(batches.drop_first()[j - 1] == batches[j]);
                        assert(!batches.drop_first()[j - 1].contains(f));
                    }
                }
            },
        }
    }
}

/// Where a freshly declared batch joins the layout: the first batch holding
/// the last already-declared flag of `dflags` that the layout lists.
pub open spec fn insert_index_of(
    reg: Map<Seq<char>, ArgModel>,
    batches: Seq<Seq<Seq<char>>>,
    dflags: Seq<Seq<char>>,
) -> Option<int>
    decreases dflags.len(),
{
    if dflags.len() == 0 {
        None
    } else {
        let rest = insert_index_of(reg, batches, dflags.drop_last());
        if reg.contains_key(dflags.last()) {
            match find_batch(batches, dflags.last()) {
                Some(i) => Some(i),
                None => rest,
            }
        } else {
            rest
        }
    }
}

/// An insertion index is a valid batch index.
pub proof fn lemma_insert_index_range(
    reg: Map<Seq<char>, ArgModel>,
    batches: Seq<Seq<Seq<char>>>,
    dflags: Seq<Seq<char>>,
)
    ensures
        insert_index_of(reg, batches, dflags) matches Some(i) ==> 0 <= i < batches.len(),
    decreases dflags.len(),
{
    if dflags.len() > 0 {
        lemma_insert_index_range(reg, batches, dflags.drop_last());
        if reg.contains_key(dflags.last()) {
            lemma_find_batch(batches, dflags.last());
        }
    }
}

/// The model of the registry after one default-flag batch is offered: the
/// absent flags are registered fresh and joined onto the layout; everything
/// else is untouched.
pub open spec fn gen_defaults_spec(m: ParserModel, dflags: Seq<Seq<char>>, options: u8) -> ParserModel {
    let ins = absent_of(m.reg, dflags);
    let reg2 = Map::new(
        |f: Seq<char>| m.reg.contains_key(f) || ins.contains(f),
        |f: Seq<char>|
            if m.reg.contains_key(f) {
                m.reg[f]
            } else {
                fresh_arg(options)
            },
    );
    let batches2 = match insert_index_of(m.reg, m.batches, dflags) {
        Some(ii) => m.batches.update(ii, m.batches[ii] + ins),
        None => m.batches.push(ins),
    };
    ParserModel { reg: reg2, keys: m.keys + ins, batches: batches2, ..m }
}

impl ArgParser {
    /// Declares the flags of `default_args` that are not yet declared, each
    /// as a fresh definition sharing `options`, and joins them onto the
    /// layout batch of the last already-declared one, per
    /// [`gen_defaults_spec`]. The metadata target batch is unaffected.
    pub fn gen_default_args(&mut self, default_args: &Vec<String>, options: u8)
        requires
            old(self).wf(),
            views_unique(default_args@),
        ensures
            final (self).wf(),
            final (self)@ == gen_defaults_spec(old(self)@, default_args.deep_view(), options),
            final (self).settings == old(self).settings,
    {
        let ghost m0 = old(self)@;
        let ghost dv = default_args.deep_view();
        let ghost args0 = old(self).args@;
        let mut insert_index: Option<usize> = None;
        let mut to_insert: Vec<String> = Vec::new();
        let mut j: usize = 0;
        while j < default_args.len()
            invariant
                0 <= j <= dv.len(),
                dv == default_args.deep_view(),
                dv.len() == default_args@.len(),
                views_unique(default_args@),
                m0 == old(self)@,
                args0 == old(self).args@,
                keys_unique(args0),
                keys_unique(self.args@),
                self.args@.len() >= args0.len(),
                forall|q: int| 0 <= q < args0.len() ==> #[trigger] self.args@[q] == args0[q],
                forall|f: Seq<char>|
                    #[trigger] reg_of(self.args@).contains_key(f) <==> (reg_of(args0).contains_key(
                        f,
                    ) || absent_of(m0.reg, dv.take(j as int)).contains(f)),
                forall|f: Seq<char>|
                    #[trigger] reg_of(args0).contains_key(f) ==> reg_of(self.args@)[f] == reg_of(
                        args0,
                    )[f],
                forall|f: Seq<char>|
                    #[trigger] absent_of(m0.reg, dv.take(j as int)).contains(f) ==> reg_of(
                        self.args@,
                    )[f] == fresh_arg(options),
                self@.keys == m0.keys + absent_of(m0.reg, dv.take(j as int)),
                to_insert.deep_view() == absent_of(m0.reg, dv.take(j as int)),
                match insert_index {
                    Some(ii) => insert_index_of(m0.reg, m0.batches, dv.take(j as int)) == Some(
                        ii as int,
                    ),
                    None => insert_index_of(m0.reg, m0.batches, dv.take(j as int)) is None,
                },
                self.print_arg_vecs == old(self).print_arg_vecs,
                self.modifiable_args == old(self).modifiable_args,
                self.required_args == old(self).required_args,
                self.p_info == old(self).p_info,
                self.other_args == old(self).other_args,
                self.help == old(self).help,
                self.settings == old(self).settings,
            decreases dv.len() - j,
        {
            let elem = &default_args[j];
            let ghost prefix = dv.take(j as int);
            let ghost prefix1 = dv.take(j + 1);
            let ghost keys_entry = self@.keys;
            proof {
                assert(prefix1.drop_last() =~= prefix);
                assert(prefix1.last() == dv[j as int]);
                assert(dv[j as int] == elem@);
                assert(prefix1 =~= prefix.push(elem@));
            }
            match find_index(&self.args, elem.as_str()) {
                Some(_) => {
                    proof {
                        lemma_absent_contains(m0.reg, prefix, elem@);
                        if absent_of(m0.reg, prefix).contains(elem@) {
                            let q = choose|q: int| 0 <= q < prefix.len() && prefix[q] == elem@;
                            assert(default_args@[q]@ == default_args@[j as int]@);
                            assert(false);
                        }
                        assert(m0.reg.contains_key(elem@));
                        assert(absent_of(m0.reg, prefix1) == absent_of(m0.reg, prefix));
                    }
                    match find_2d(&self.print_arg_vecs, elem.as_str()) {
                        Some(ix) => {
                            insert_index = Some(ix);
                            proof {
                                assert(insert_index_of(m0.reg, m0.batches, prefix1) == Some(
                                    ix as int,
                                ));
                            }
                        },
                        None => {
                            proof {
                                assert(insert_index_of(m0.reg, m0.batches, prefix1)
                                    == insert_index_of(m0.reg, m0.batches, prefix));
                            }
                        },
                    }
                },
                None => {
                    proof {
                        lemma_absent_contains(m0.reg, prefix, elem@);
                        assert(!reg_of(args0).contains_key(elem@));
                        assert(!m0.reg.contains_key(elem@));
                        assert(absent_of(m0.reg, prefix1) =~= absent_of(m0.reg, prefix).push(
                            elem@,
                        ));
                        assert(insert_index_of(m0.reg, m0.batches, prefix1) == insert_index_of(
                            m0.reg,
                            m0.batches,
                            prefix,
                        ));
                        lemma_reg_of_contains(self.args@, elem@);
                    }
                    let ghost args_before = self.args@;
                    self.args.push(Binding { flag: elem.clone(), arg: Argument::new(options) });
                    proof {
                        lemma_reg_of_push(args_before, self.args@.last());
                    }
                    to_insert.push(elem.clone());
                    proof {
                        assert(to_insert.deep_view() =~= absent_of(m0.reg, prefix1));
                        let ka = m0.keys;
                        let ab = absent_of(m0.reg, prefix);
                        let ab1 = absent_of(m0.reg, prefix1);
                        assert(ab1 == ab.push(elem@));
                        assert(keys_entry.len() == args_before.len());
                        assert(keys_entry == ka + ab);
                        assert(args_before.len() == ka.len() + ab.len());
                        assert forall|f: Seq<char>| #[trigger]
                            reg_of(self.args@).contains_key(f) <==> (reg_of(args0).contains_key(f)
                            || ab1.contains(f)) by {
                            lemma_seq_push_contains(ab, elem@, f);
                        }
                        assert forall|f: Seq<char>| #[trigger]
                            ab1.contains(f) implies reg_of(self.args@)[f] == fresh_arg(options) by {
                            lemma_seq_push_contains(ab, elem@, f);
                            if f != elem@ {
                                assert(ab.contains(f));
                                lemma_absent_contains(m0.reg, prefix, f);
                            }
                        }
                        assert forall|q: int| 0 <= q < self.args@.len() implies #[trigger] self.args@[
                            q
                        ].flag@ == (ka + ab1)[q] by {
                            if q < args_before.len() {
                                assert(self.args@[q] == args_before[q]);
                                assert(args_before[q].flag@ == (ka + ab)[q]);
                                if q < ka.len() {
                                    assert((ka + ab)[q] == ka[q]);
                                    assert((ka + ab1)[q] == ka[q]);
                                } else {
                                    assert((ka + ab)[q] == ab[q - ka.len()]);
                                    assert((ka + ab1)[q] == ab1[q - ka.len()]);
                                    assert(ab1[q - ka.len()] == ab[q - ka.len()]);
                                }
                            } else {
                                assert(q == args_before.len());
                                assert(self.args@[q].flag@ == elem@);
                                assert((ka + ab1)[q] == ab1[q - ka.len()]);
                                assert(ab1[q - ka.len()] == elem@);
                            }
                        }
                        assert(self@.keys =~= ka + ab1);
                    }
                },
            }
            j += 1;
        }
        proof {
            assert(dv.take(dv.len() as int) =~= dv);
        }
        let ghost ins = absent_of(m0.reg, dv);
        match insert_index {
            Some(ii) => {
                proof {
                    lemma_insert_index_range(m0.reg, m0.batches, dv);
                    assert(m0.batches.len() == self.print_arg_vecs@.len());
                }
                self.print_arg_vecs[ii].append(&mut to_insert);
                proof {
                    assert(self.print_arg_vecs.deep_view() =~~= m0.batches.update(
                        ii as int,
                        m0.batches[ii as int] + ins,
                    ));
                }
            },
            None => {
                self.print_arg_vecs.push(to_insert);
                proof {
                    assert(self.print_arg_vecs.deep_view() =~~= m0.batches.push(ins));
                }
            },
        }
        proof {
            let target = gen_defaults_spec(m0, dv, options);
            assert forall|f: Seq<char>|
                self@.reg.contains_key(f) <==> target.reg.contains_key(f) by {
                lemma_absent_contains(m0.reg, dv, f);
            }
            assert forall|f: Seq<char>| #[trigger]
                target.reg.contains_key(f) implies self@.reg[f] == target.reg[f] by {
                lemma_absent_contains(m0.reg, dv, f);
            }
            assert(self@.reg =~= target.reg);
            assert(self@ =~~= target);
            assert forall|i: int| 0 <= i < self.required_args@.len() implies reg_of(
                self.args@,
            ).contains_key(#[trigger] self.required_args@[i]@) by {
                assert(reg_of(args0).contains_key(self.required_args@[i]@));
            }
        }
    }
}

/// The first index of the layout whose batch contains `value`, if any.
pub fn find_2d(n_vec: &Vec<Vec<String>>, value: &str) -> (r: Option<usize>)
    ensures
        match r {
            Some(i) => find_batch(n_vec.deep_view(), value@) == Some(i as int),
            None => find_batch(n_vec.deep_view(), value@) is None,
        },
{
    let ghost dv = n_vec.deep_view();
    let mut i: usize = 0;
    while i < n_vec.len()
        invariant
            0 <= i <= n_vec@.len(),
            dv == n_vec.deep_view(),
            forall|j: int| 0 <= j < i ==> !(#[trigger] dv[j]).contains(value@),
        decreases n_vec@.len() - i,
    {
        if contains_str(&n_vec[i], value) {
            proof {
                lemma_strset_contains(n_vec@[i as int]@, value@);
                let q = choose|q: int|
                    0 <= q < n_vec@[i as int]@.len() && n_vec@[i as int]@[q]@ == value@;
                assert(dv[i as int][q] == value@);
                assert(dv[i as int].contains(value@));
                lemma_find_batch(dv, value@);
                match find_batch(dv, value@) {
                    Some(i0) => {
                        if i0 < i {
                            assert(!dv[i0].contains(value@));
                        }
                        if i0 > i {
                            assert(!dv[i as int].contains(value@));
                        }
                    },
                    None => {
                        assert(!dv[i as int].contains(value@));
                    },
                }
            }
            return Some(i);
        }
        proof {
            lemma_strset_contains(n_vec@[i as int]@, value@);
            if dv[i as int].contains(value@) {
                let q = choose|q: int| 0 <= q < dv[i as int].len() && dv[i as int][q] == value@;
                assert(n_vec@[i as int]@[q]@ == value@);
            }
        }
        i += 1;
    }
    proof {
        lemma_find_batch(dv, value@);
        match find_batch(dv, value@) {
            Some(i0) => {
                assert(!dv[i0].contains(value@));
            },
            None => {},
        }
    }
    None
}

} // verus!
