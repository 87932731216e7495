//! Homogeneous sequences as form values: each element's leaves are
//! addressed under its decimal index segment, as in `"ids.0"`, `"ids.1"`.

use vstd::prelude::*;
use crate::digits::{
    all_digits,
    dec_of,
    str_to_int,
    parse_index,
    render_index,
    lemma_dec_of_shape,
    lemma_dec_of_injective,
    lemma_str_to_int_dec_of,
};
use crate::model::{FormValue, distinct_seqs};
use crate::path::{
    spec_head,
    spec_join,
    spec_rest,
    join_field_path,
    split_field_path,
    lemma_join_assoc,
    lemma_split_of_join,
};

verus! {

/// The leaf paths of a sequence of form values: element `i`'s leaf paths,
/// each under the decimal index segment `i`, in element order.
pub open spec fn seq_leaf_paths<T: FormValue>(s: Seq<T>) -> Seq<Seq<char>>
    decreases s.len(),
{
    if s.len() == 0 {
        Seq::empty()
    } else {
        seq_leaf_paths(s.drop_last()) + s.last().leaf_paths().map_values(
            |p: Seq<char>| spec_join(dec_of(s.len() - 1), p),
        )
    }
}

/// An index segment is a nonempty separator-free digit string.
proof fn lemma_index_segment(i: int)
    requires
        i >= 0,
    ensures
        dec_of(i).len() > 0,
        forall|k: int| 0 <= k < dec_of(i).len() ==> #[trigger] dec_of(i)[k] != '.',
{
    lemma_dec_of_shape(i);
}

/// Joined indexed paths decompose uniquely.
proof fn lemma_join_index_injective(i1: int, q1: Seq<char>, i2: int, q2: Seq<char>)
    requires
        i1 >= 0,
        i2 >= 0,
        spec_join(dec_of(i1), q1) == spec_join(dec_of(i2), q2),
    ensures
        i1 == i2,
        q1 == q2,
{
    lemma_index_segment(i1);
    lemma_index_segment(i2);
    lemma_split_of_join(dec_of(i1), q1);
    lemma_split_of_join(dec_of(i2), q2);
    lemma_dec_of_injective(i1, i2);
}

/// Every leaf of the sequence is an element's leaf joined under that
/// element's index.
pub proof fn lemma_seq_leaf_paths_elem<T: FormValue>(s: Seq<T>, x: Seq<char>)
    requires
        seq_leaf_paths(s).contains(x),
    ensures
        exists|i: int, q: Seq<char>|
            {
                &&& 0 <= i < s.len()
                &&& (#[trigger] s[i]).leaf_paths().contains(#[trigger] trigger_leaf(q))
                &&& x == spec_join(dec_of(i), q)
            },
    decreases s.len(),
{
    let k = choose|k: int| 0 <= k < seq_leaf_paths(s).len() && seq_leaf_paths(s)[k] == x;
    let pre = seq_leaf_paths(s.drop_last());
    let block = s.last().leaf_paths().map_values(|p: Seq<char>| spec_join(dec_of(s.len() - 1), p));
    if k < pre.len() {
        assert(pre[k] == x);
        lemma_seq_leaf_paths_elem(s.drop_last(), x);
        let (i, q) = choose|i: int, q: Seq<char>|
            {
                &&& 0 <= i < s.drop_last().len()
                &&& (#[trigger] s.drop_last()[i]).leaf_paths().contains(
                    #[trigger] trigger_leaf(q),
                )
                &&& x == spec_join(dec_of(i), q)
            };
        assert(s.drop_last()[i] == s[i]);
        assert(s[i].leaf_paths().contains(trigger_leaf(q)) && x == spec_join(dec_of(i), q));
    } else {
        let j = k - pre.len();
        assert(block[j] == x);
        let i = s.len() - 1;
        let q = s.last().leaf_paths()[j];
        assert(s[i].leaf_paths().contains(trigger_leaf(q)) && x == spec_join(dec_of(i), q));
    }
}

/// An identity marker used to pick triggers over element leaf paths.
pub open spec fn trigger_leaf(q: Seq<char>) -> Seq<char> {
    q
}

/// Concatenating sequences of distinct, mutually different paths keeps
/// distinctness.
proof fn lemma_distinct_concat(a: Seq<Seq<char>>, b: Seq<Seq<char>>)
    requires
        distinct_seqs(a),
        distinct_seqs(b),
        forall|i: int, j: int| 0 <= i < a.len() && 0 <= j < b.len() ==> #[trigger] a[i]
            != #[trigger] b[j],
    ensures
        distinct_seqs(a + b),
{
    assert forall|i: int, j: int| 0 <= i < j < (a + b).len() implies #[trigger] (a + b)[i]
        != #[trigger] (a + b)[j] by {
        if i < a.len() && j < a.len() {
            assert(a[i] != a[j]);
        } else if i < a.len() {
            assert(a[i] != b[j - a.len()]);
        } else {
            assert(b[i - a.len()] != b[j - a.len()]);
        }
    }
}

/// The leaf paths of a sequence never repeat, provided each element's do
/// not — which `FormValue` guarantees.
pub proof fn lemma_seq_leaf_paths_distinct<T: FormValue>(s: Seq<T>)
    ensures
        distinct_seqs(seq_leaf_paths(s)),
    decreases s.len(),
{
    if s.len() == 0 {
    } else {
        lemma_seq_leaf_paths_distinct(s.drop_last());
        let pre = seq_leaf_paths(s.drop_last());
        let n = s.len() - 1;
        let block = s.last().leaf_paths().map_values(|p: Seq<char>| spec_join(dec_of(n), p));
        s.last().lemma_leaf_paths_distinct();
        assert(distinct_seqs(block)) by {
            assert forall|i: int, j: int| 0 <= i < j < block.len() implies #[trigger] block[i]
                != #[trigger] block[j] by {
                if block[i] == block[j] {
                    lemma_join_index_injective(
                        n,
                        s.last().leaf_paths()[i],
                        n,
                        s.last().leaf_paths()[j],
                    );
                }
            }
        }
        assert forall|i: int, j: int|
            0 <= i < pre.len() && 0 <= j < block.len() implies #[trigger] pre[i]
            != #[trigger] block[j] by {
            if pre[i] == block[j] {
                assert(pre.contains(pre[i]));
                lemma_seq_leaf_paths_elem(s.drop_last(), pre[i]);
                let (i2, q2) = choose|i2: int, q2: Seq<char>|
                    {
                        &&& 0 <= i2 < s.drop_last().len()
                        &&& (#[trigger] s.drop_last()[i2]).leaf_paths().contains(
                            #[trigger] trigger_leaf(q2),
                        )
                        &&& pre[i] == spec_join(dec_of(i2), q2)
                    };
                lemma_join_index_injective(i2, q2, n, s.last().leaf_paths()[j]);
            }
        }
        lemma_distinct_concat(pre, block);
    }
}

/// Sequence leaf paths depend only on the elements' leaf paths.
proof fn lemma_seq_leaf_paths_congruent<T: FormValue>(s1: Seq<T>, s2: Seq<T>)
    requires
        s1.len() == s2.len(),
        forall|j: int| 0 <= j < s1.len() ==> (#[trigger] s1[j]).leaf_paths() == s2[j].leaf_paths(),
    ensures
        seq_leaf_paths(s1) == seq_leaf_paths(s2),
    decreases s1.len(),
{
    if s1.len() > 0 {
        assert forall|j: int| 0 <= j < s1.drop_last().len() implies (#[trigger] s1.drop_last()[j])
            .leaf_paths() == s2.drop_last()[j].leaf_paths() by {
            assert(s1.drop_last()[j] == s1[j]);
            assert(s2.drop_last()[j] == s2[j]);
        }
        lemma_seq_leaf_paths_congruent(s1.drop_last(), s2.drop_last());
        assert(s1.last() == s1[s1.len() - 1]);
        assert(s2.last() == s2[s1.len() - 1]);
        assert(seq_leaf_paths(s1) =~= seq_leaf_paths(s2));
    } else {
        assert(seq_leaf_paths(s1) =~= seq_leaf_paths(s2));
    }
}

impl<T: FormValue> FormValue for Vec<T> {
    open spec fn leaf_paths(&self) -> Seq<Seq<char>> {
        seq_leaf_paths(self@)
    }

    open spec fn leaf_value(&self, path: Seq<char>) -> Seq<char> {
        self@[str_to_int(spec_head(path))].leaf_value(spec_rest(path))
    }

    open spec fn accepts(path: Seq<char>, value: Seq<char>) -> bool {
        T::accepts(spec_rest(path), value)
    }

    open spec fn converted(path: Seq<char>, value: Seq<char>) -> Seq<char> {
        T::converted(spec_rest(path), value)
    }

    proof fn lemma_leaf_paths_distinct(&self) {
        lemma_seq_leaf_paths_distinct(self@);
    }

    fn fields(&self, prefix: &str, out: &mut Vec<String>) {
        let ghost f_prefix = |p: Seq<char>| spec_join(prefix@, p);
        let mut i: usize = 0;
        proof {
            assert(seq_leaf_paths(self@.subrange(0, 0)) =~= Seq::<Seq<char>>::empty());
            assert(out.deep_view() =~~= old(out).deep_view() + seq_leaf_paths(
                self@.subrange(0, 0),
            ).map_values(f_prefix));
        }
        while i < self.len()
            invariant
                0 <= i <= self@.len(),
                out.deep_view() == old(out).deep_view() + seq_leaf_paths(
                    self@.subrange(0, i as int),
                ).map_values(f_prefix),
                f_prefix == (|p: Seq<char>| spec_join(prefix@, p)),
            decreases self@.len() - i,
        {
            let idx_text = render_index(i);
            let child = join_field_path(prefix, idx_text.as_str());
            let ghost before = out.deep_view();
            let elem = &self[i];
            elem.fields(child.as_str(), out);
            proof {
                let n = i as int;
                let sub0 = self@.subrange(0, n);
                let sub1 = self@.subrange(0, n + 1);
                assert(sub1.drop_last() =~= sub0);
                assert(sub1.last() == self@[n]);
                lemma_index_segment(n);
                let f_child = |p: Seq<char>| spec_join(child@, p);
                let block = self@[n].leaf_paths().map_values(
                    |p: Seq<char>| spec_join(dec_of(n), p),
                );
                assert(seq_leaf_paths(sub1) == seq_leaf_paths(sub0) + block);
                assert forall|k: int| 0 <= k < block.len() implies f_prefix(#[trigger] block[k])
                    == f_child(self@[n].leaf_paths()[k]) by {
                    let p = self@[n].leaf_paths()[k];
                    assert(block[k] == spec_join(dec_of(n), p));
                    lemma_join_assoc(prefix@, dec_of(n), p);
                }
                assert(seq_leaf_paths(sub1).map_values(f_prefix) =~= seq_leaf_paths(
                    sub0,
                ).map_values(f_prefix) + self@[n].leaf_paths().map_values(f_child)) by {
                    assert forall|k: int| 0 <= k < seq_leaf_paths(sub1).len() implies #[trigger]
                    seq_leaf_paths(sub1).map_values(f_prefix)[k] == (seq_leaf_paths(
                        sub0,
                    ).map_values(f_prefix) + self@[n].leaf_paths().map_values(f_child))[k] by {
                        if k < seq_leaf_paths(sub0).len() {
                            assert(seq_leaf_paths(sub1)[k] == seq_leaf_paths(sub0)[k]);
                        } else {
                            assert(seq_leaf_paths(sub1)[k] == block[k - seq_leaf_paths(
                                sub0,
                            ).len()]);
                        }
                    }
                }
                assert(out.deep_view() =~~= old(out).deep_view() + seq_leaf_paths(
                    sub1,
                ).map_values(f_prefix));
            }
            i += 1;
        }
        proof {
            assert(self@.subrange(0, self@.len() as int) =~= self@);
        }
    }

    fn value(&self, field_path: &str) -> (r: String) {
        proof {
            lemma_seq_leaf_paths_elem(self@, field_path@);
        }
        let ghost (gi, gq) = choose|gi: int, gq: Seq<char>|
            {
                &&& 0 <= gi < self@.len()
                &&& (#[trigger] self@[gi]).leaf_paths().contains(#[trigger] trigger_leaf(gq))
                &&& field_path@ == spec_join(dec_of(gi), gq)
            };
        proof {
            lemma_index_segment(gi);
            lemma_dec_of_shape(gi);
            lemma_split_of_join(dec_of(gi), gq);
            lemma_str_to_int_dec_of(gi);
            assert(spec_head(field_path@) == dec_of(gi));
            assert(spec_rest(field_path@) == gq);
            assert(str_to_int(spec_head(field_path@)) == gi);
        }
        let n_elems = self.len();
        let (head, rest) = split_field_path(field_path);
        proof {
            assert(head@ == dec_of(gi));
            assert(head@.len() > 0 && all_digits(head@));
            assert(str_to_int(head@) == gi);
            assert(gi < n_elems as int <= usize::MAX);
        }
        match parse_index(head) {
            Some(i) => {
                if i < self.len() {
                    proof {
                        assert(i as int == gi);
                        assert(self@[gi].leaf_paths().contains(rest@));
                    }
                    self[i].value(rest)
                } else {
                    proof {
                        assert(false);
                    }
                    vstd::pervasive::unreached()
                }
            },
            None => {
                proof {
                    assert(false);
                }
                vstd::pervasive::unreached()
            },
        }
    }

    fn set_value(&mut self, field_path: &str, value: &str) -> (r: Result<(), String>) {
        proof {
            lemma_seq_leaf_paths_elem(self@, field_path@);
        }
        let ghost (gi, gq) = choose|gi: int, gq: Seq<char>|
            {
                &&& 0 <= gi < self@.len()
                &&& (#[trigger] self@[gi]).leaf_paths().contains(#[trigger] trigger_leaf(gq))
                &&& field_path@ == spec_join(dec_of(gi), gq)
            };
        proof {
            lemma_index_segment(gi);
            lemma_dec_of_shape(gi);
            lemma_split_of_join(dec_of(gi), gq);
            lemma_str_to_int_dec_of(gi);
            assert(spec_head(field_path@) == dec_of(gi));
            assert(spec_rest(field_path@) == gq);
            assert(str_to_int(spec_head(field_path@)) == gi);
        }
        let n_elems = self.len();
        let (head, rest) = split_field_path(field_path);
        proof {
            assert(head@ == dec_of(gi));
            assert(head@.len() > 0 && all_digits(head@));
            assert(str_to_int(head@) == gi);
            assert(gi < n_elems as int <= usize::MAX);
        }
        match parse_index(head) {
            Some(i) => {
                if i < self.len() {
                    proof {
                        assert(i as int == gi);
                        assert(self@[gi].leaf_paths().contains(rest@));
                    }
                    let elem = &mut self[i];
                    let r = elem.set_value(rest, value);
                    proof {
                        lemma_seq_leaf_paths_congruent(old(self)@, self@);
                        assert forall|q: Seq<char>|
                            old(self).leaf_paths().contains(q) && q != field_path@
                            implies #[trigger] self.leaf_value(q) == old(self).leaf_value(q) by {
                            lemma_seq_leaf_paths_elem(old(self)@, q);
                            let (i2, q2) = choose|i2: int, q2: Seq<char>|
                                {
                                    &&& 0 <= i2 < old(self)@.len()
                                    &&& (#[trigger] old(self)@[i2]).leaf_paths().contains(
                                        #[trigger] trigger_leaf(q2),
                                    )
                                    &&& q == spec_join(dec_of(i2), q2)
                                };
                            lemma_index_segment(i2);
                            lemma_split_of_join(dec_of(i2), q2);
                            lemma_str_to_int_dec_of(i2);
                            if i2 == gi {
                                assert(q2 != gq);
                            } else {
                                assert(self@[i2] == old(self)@[i2]);
                            }
                        }
                    }
                    r
                } else {
                    proof {
                        assert(false);
                    }
                    vstd::pervasive::unreached()
                }
            },
            None => {
                proof {
                    assert(false);
                }
                vstd::pervasive::unreached()
            },
        }
    }
}

} // verus!
