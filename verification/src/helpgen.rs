//! The generated help menu: a header naming the program, a usage line, and
//! one aligned flag/description row per declared flag, grouped by
//! declaration batch with a blank line between batches.
//!
//! The flag column is as wide as the longest flag (measured in bytes, as
//! stored) plus a fixed gap, so descriptions line up.

use vstd::prelude::*;
use vstd::string::StringExecFns;

use crate::registry::find_index;
use crate::registry::ArgParser;
use crate::registry::ParserModel;
use crate::store::lemma_reg_of_index;
use crate::store::ArgModel;

verus! {

/// The stored byte length of a flag's characters.
pub open spec fn blen(s: Seq<char>) -> int {
    (vstd::utf8::encode_utf8(s).len() as usize) as int
}

/// The largest stored byte length among the declared flags.
pub open spec fn max_blen(keys: Seq<Seq<char>>) -> int
    decreases keys.len(),
{
    if keys.len() == 0 {
        0
    } else {
        let r = max_blen(keys.drop_last());
        if blen(keys.last()) > r {
            blen(keys.last())
        } else {
            r
        }
    }
}

/// The flag column width: the longest flag plus a four-byte gap.
pub open spec fn help_width(keys: Seq<Seq<char>>) -> int {
    let strlong = max_blen(keys);
    if strlong <= usize::MAX - 4 {
        strlong + 4
    } else {
        strlong
    }
}

/// `n` spaces.
pub open spec fn spaces(n: int) -> Seq<char>
    decreases n,
{
    if n <= 0 {
        Seq::empty()
    } else {
        spaces(n - 1).push(' ')
    }
}

/// One help row: the indented flag, padded to the column width, then its
/// description. A flag missing from the registry produces nothing.
pub open spec fn row_text(reg: Map<Seq<char>, ArgModel>, key: Seq<char>, width: int) -> Seq<char> {
    if reg.contains_key(key) {
        "    "@ + key + spaces(width - blen(key)) + reg[key].description + "\n"@
    } else {
        Seq::empty()
    }
}

/// The rows of one batch, in order.
pub open spec fn batch_text(reg: Map<Seq<char>, ArgModel>, batch: Seq<Seq<char>>, width: int) -> Seq<
    char,
>
    decreases batch.len(),
{
    if batch.len() == 0 {
        Seq::empty()
    } else {
        batch_text(reg, batch.drop_last(), width) + row_text(reg, batch.last(), width)
    }
}

/// The rows of every batch, with a blank line after each batch but the last
/// of the `total` in the layout.
pub open spec fn batches_text(
    reg: Map<Seq<char>, ArgModel>,
    batches: Seq<Seq<Seq<char>>>,
    width: int,
    total: int,
) -> Seq<char>
    decreases batches.len(),
{
    if batches.len() == 0 {
        Seq::empty()
    } else {
        batches_text(reg, batches.drop_last(), width, total) + batch_text(
            reg,
            batches.last(),
            width,
        ) + (if batches.len() == total {
            Seq::<char>::empty()
        } else {
            "\n"@
        })
    }
}

/// The header: the program's identity and a usage line.
pub open spec fn header_text(m: ParserModel) -> Seq<char> {
    m.program_name + " on version "@ + m.program_version + "\n"@ + "Usage\n"@ + "    "@
        + m.program_name + " <flags>\n"@
}

/// The whole generated help menu.
pub open spec fn help_text(m: ParserModel) -> Seq<char> {
    header_text(m) + batches_text(m.reg, m.batches, help_width(m.keys), m.batches.len() as int)
}

impl ArgParser {
    /// Appends the generated help menu, per [`help_text`], to the parser's
    /// help string.
    pub fn gen_help(&mut self)
        requires
            old(self).wf(),
        ensures
            final (self).wf(),
            final (self)@ == (ParserModel { help: old(self)@.help + help_text(old(self)@), ..old(
                self,
            )@ }),
            final (self).settings == old(self).settings,
    {
        let ghost m0 = old(self)@;
        let mut strlong: usize = 0;
        let mut i: usize = 0;
        while i < self.args.len()
            invariant
                *self == *old(self),
                m0 == old(self)@,
                0 <= i <= self.args@.len(),
                strlong as int == max_blen(m0.keys.take(i as int)),
            decreases self.args@.len() - i,
        {
            let l = self.args[i].flag.as_str().len();
            proof {
                assert(m0.keys.take(i + 1).drop_last() =~= m0.keys.take(i as int));
                assert(m0.keys.take(i + 1).last() == m0.keys[i as int]);
                assert(l as int == blen(m0.keys[i as int]));
            }
            if l > strlong {
                strlong = l;
            }
            i += 1;
        }
        proof {
            assert(m0.keys.take(m0.keys.len() as int) =~= m0.keys);
        }
        let width: usize = if strlong <= usize::MAX - 4 {
            strlong + 4
        } else {
            strlong
        };
        assert(width as int == help_width(m0.keys));
        let mut out = String::new();
        out.append(self.p_info.program_name.as_str());
        out.append(" on version ");
        out.append(self.p_info.program_version.as_str());
        out.append("\n");
        out.append("Usage\n");
        out.append("    ");
        out.append(self.p_info.program_name.as_str());
        out.append(" <flags>\n");
        assert(out@ == header_text(m0));
        let total = self.print_arg_vecs.len();
        let mut bi: usize = 0;
        while bi < total
            invariant
                *self == *old(self),
                self.wf(),
                m0 == old(self)@,
                total == self.print_arg_vecs@.len(),
                0 <= bi <= total,
                width as int == help_width(m0.keys),
                out@ == header_text(m0) + batches_text(
                    m0.reg,
                    m0.batches.take(bi as int),
                    width as int,
                    total as int,
                ),
            decreases total - bi,
        {
            let batch = &self.print_arg_vecs[bi];
            let ghost bview = m0.batches[bi as int];
            let mut ki: usize = 0;
            while ki < batch.len()
                invariant
                    *self == *old(self),
                    self.wf(),
                    m0 == old(self)@,
                    bi < self.print_arg_vecs@.len(),
                    batch == &self.print_arg_vecs@[bi as int],
                    bview == m0.batches[bi as int],
                    bview.len() == batch@.len(),
                    0 <= ki <= batch@.len(),
                    width as int == help_width(m0.keys),
                    out@ == header_text(m0) + batches_text(
                        m0.reg,
                        m0.batches.take(bi as int),
                        width as int,
                        total as int,
                    ) + batch_text(m0.reg, bview.take(ki as int), width as int),
                decreases batch@.len() - ki,
            {
                let key = &batch[ki];
                proof {
                    assert(bview.take(ki + 1).drop_last() =~= bview.take(ki as int));
                    assert(bview.take(ki + 1).last() == bview[ki as int]);
                    assert(bview[ki as int] == key@);
                }
                match find_index(&self.args, key.as_str()) {
                    Some(ai) => {
                        proof {
                            lemma_reg_of_index(self.args@, ai as int);
                        }
                        let ghost row_base = out@;
                        out.append("    ");
                        out.append(key.as_str());
                        let klen = key.as_str().len();
                        proof {
                            assert(klen as int == blen(key@));
                        }
                        let mut c: usize = klen;
                        while c < width
                            invariant
                                klen <= c,
                                c <= width || c == klen,
                                out@ == row_base + "    "@ + key@ + spaces(c as int - klen as int),
                            decreases width - c,
                        {
                            proof {
                                reveal_strlit(" ");
                                assert(spaces(c as int + 1 - klen as int) == spaces(
                                    c as int - klen as int,
                                ).push(' '));
                                assert(out@ + " "@ =~= row_base + "    "@ + key@ + spaces(
                                    c as int + 1 - klen as int,
                                ));
                            }
                            out.append(" ");
                            c += 1;
                        }
                        proof {
                            if klen >= width {
                                assert(c == klen);
                                assert(spaces(width as int - blen(key@)) =~= Seq::<char>::empty());
                                assert(spaces(c as int - klen as int) =~= Seq::<char>::empty());
                            } else {
                                assert(c == width);
                            }
                            assert(out@ == row_base + "    "@ + key@ + spaces(
                                width as int - blen(key@),
                            ));
                        }
                        out.append(self.args[ai].arg.description.as_str());
                        out.append("\n");
                        proof {
                            assert(out@ =~= row_base + row_text(m0.reg, key@, width as int));
                            assert(out@ =~= header_text(m0) + batches_text(
                                m0.reg,
                                m0.batches.take(bi as int),
                                width as int,
                                total as int,
                            ) + batch_text(m0.reg, bview.take(ki + 1), width as int));
                        }
                    },
                    None => {
                        proof {
                            assert(row_text(m0.reg, key@, width as int) =~= Seq::<char>::empty());
                            assert(out@ =~= header_text(m0) + batches_text(
                                m0.reg,
                                m0.batches.take(bi as int),
                                width as int,
                                total as int,
                            ) + batch_text(m0.reg, bview.take(ki + 1), width as int));
                        }
                    },
                }
                ki += 1;
            }
            proof {
                assert(bview.take(bview.len() as int) =~= bview);
            }
            if bi != total - 1 {
                out.append("\n");
            }
            proof {
                assert(m0.batches.take(bi + 1).drop_last() =~= m0.batches.take(bi as int));
                assert(m0.batches.take(bi + 1).last() == m0.batches[bi as int]);
                assert(m0.batches.take(bi + 1).len() == bi + 1);
                if bi == total - 1 {
                    assert(out@ =~= header_text(m0) + batches_text(
                        m0.reg,
                        m0.batches.take(bi + 1),
                        width as int,
                        total as int,
                    ));
                } else {
                    assert(out@ =~= header_text(m0) + batches_text(
                        m0.reg,
                        m0.batches.take(bi + 1),
                        width as int,
                        total as int,
                    ));
                }
            }
            bi += 1;
        }
        proof {
            assert(m0.batches.take(total as int) =~= m0.batches);
        }
        self.help.append(out.as_str());
        proof {
            assert(self@ =~~= (ParserModel { help: m0.help + help_text(m0), ..m0 }));
        }
    }
}

} // verus!
