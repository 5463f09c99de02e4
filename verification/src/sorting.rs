//! Sorting records by a text key, as the listings of saves, skills and items
//! are sorted before they are shown.
use vstd::prelude::*;
use crate::text::{lemma_seq_less_irreflexive, lemma_seq_less_total, lemma_seq_less_transitive, seq_le, seq_less, text_less};

verus! {

broadcast use vstd::seq_lib::group_to_multiset_ensures;

/// A record listed in the order of a text key.
pub trait TextKeyed {
    /// The key the record is ordered by.
    spec fn key_of(&self) -> Seq<char>;

    /// The key the record is ordered by.
    fn text_key(&self) -> (r: &str)
        ensures
            r@ == self.key_of(),
    ;
}

/// The records are in nondecreasing order of their keys.
pub open spec fn sorted_by_key<T: TextKeyed>(s: Seq<T>) -> bool {
    forall|i: int, j: int| 0 <= i < j < s.len() ==> seq_le(#[trigger] s[i].key_of(), #[trigger] s[j].key_of())
}

/// The records whose key is `k`, in their order.
pub open spec fn keyed<T: TextKeyed>(s: Seq<T>, k: Seq<char>) -> Seq<T>
    decreases s.len(),
{
    if s.len() == 0 {
        Seq::empty()
    } else if s[0].key_of() == k {
        seq![s[0]] + keyed(s.drop_first(), k)
    } else {
        keyed(s.drop_first(), k)
    }
}

proof fn lemma_keyed_add<T: TextKeyed>(a: Seq<T>, b: Seq<T>, k: Seq<char>)
    ensures
        keyed(a + b, k) == keyed(a, k) + keyed(b, k),
    decreases a.len(),
{
    if a.len() == 0 {
        assert(a + b =~= b);
        assert(keyed(a, k) + keyed(b, k) =~= keyed(b, k));
    } else {
        assert((a + b).drop_first() =~= a.drop_first() + b);
        lemma_keyed_add(a.drop_first(), b, k);
        assert((a + b)[0] == a[0]);
        if a[0].key_of() == k {
            assert(seq![a[0]] + (keyed(a.drop_first(), k) + keyed(b, k)) =~= (seq![a[0]] + keyed(a.drop_first(), k)) + keyed(b, k));
        }
    }
}

proof fn lemma_keyed_none<T: TextKeyed>(a: Seq<T>, k: Seq<char>)
    requires
        forall|i: int| 0 <= i < a.len() ==> (#[trigger] a[i]).key_of() != k,
    ensures
        keyed(a, k) == Seq::<T>::empty(),
    decreases a.len(),
{
    if a.len() > 0 {
        assert forall|i: int| 0 <= i < a.drop_first().len() implies (#[trigger] a.drop_first()[i]).key_of() != k by {
            assert(a.drop_first()[i] == a[i + 1]);
        }
        lemma_keyed_none(a.drop_first(), k);
    }
}

proof fn lemma_le_transitive(a: Seq<char>, b: Seq<char>, c: Seq<char>)
    requires
        seq_le(a, b),
        seq_le(b, c),
    ensures
        seq_le(a, c),
{
    if seq_less(a, b) && seq_less(b, c) {
        lemma_seq_less_transitive(a, b, c);
    }
}

/// The records reordered so that their keys never decrease. Records with
/// equal keys keep their relative order.
pub fn sort_by_text_key<T: TextKeyed>(v: Vec<T>) -> (r: Vec<T>)
    ensures
        r@.to_multiset() == v@.to_multiset(),
        sorted_by_key(r@),
        forall|k: Seq<char>| #[trigger] keyed(r@, k) == keyed(v@, k),
{
    let ghost input = v@;
    let mut rest = v;
    let mut out: Vec<T> = Vec::new();
    proof {
        assert(out@.to_multiset() =~= vstd::multiset::Multiset::<T>::empty());
        assert(rest@.to_multiset().add(out@.to_multiset()) =~= v@.to_multiset());
    }
    while rest.len() > 0
        invariant
            rest@.to_multiset().add(out@.to_multiset()) == v@.to_multiset(),
            sorted_by_key(out@),
            input == v@,
            rest@.len() <= input.len(),
            rest@ == input.take(rest@.len() as int),
            forall|k: Seq<char>| #[trigger] keyed(out@, k) == keyed(input.skip(rest@.len() as int), k),
        decreases rest.len(),
    {
        let ghost before_rest = rest@;
        let x = rest.pop().unwrap();
        proof {
            assert(before_rest =~= rest@.push(x));
            vstd::seq_lib::to_multiset_build(rest@, x);
            let n = before_rest.len() as int;
            assert(x == before_rest[n - 1]);
            assert(before_rest[n - 1] == input[n - 1]);
            assert forall|i: int| 0 <= i < rest@.len() implies rest@[i] == input.take(rest@.len() as int)[i] by {
                assert(rest@[i] == before_rest[i]);
                assert(before_rest[i] == input[i]);
            }
            assert(rest@ =~= input.take(rest@.len() as int));
            assert(input.skip(rest@.len() as int) =~= seq![x] + input.skip(before_rest.len() as int));
        }
        let mut p: usize = 0;
        while p < out.len() && text_less(out[p].text_key(), x.text_key())
            invariant
                p <= out@.len(),
                forall|k: int| 0 <= k < p ==> seq_less(#[trigger] out@[k].key_of(), x.key_of()),
            decreases out.len() - p,
        {
            p += 1;
        }
        let ghost old_out = out@;
        proof {
            if p < old_out.len() {
                assert(!seq_less(old_out[p as int].key_of(), x.key_of()));
                lemma_seq_less_total(old_out[p as int].key_of(), x.key_of());
                assert(seq_le(x.key_of(), old_out[p as int].key_of()));
            }
        }
        out.insert(p, x);
        proof {
            assert forall|k: Seq<char>| #[trigger] keyed(out@, k) == keyed(input.skip(rest@.len() as int), k) by {
                let front = old_out.take(p as int);
                let back = old_out.skip(p as int);
                assert(old_out =~= front + back);
                assert(out@ =~= front + (seq![x] + back));
                lemma_keyed_add(front, back, k);
                lemma_keyed_add(front, seq![x] + back, k);
                lemma_keyed_add(seq![x], back, k);
                lemma_keyed_add(seq![x], input.skip(before_rest.len() as int), k);
                assert(keyed(old_out, k) == keyed(input.skip(before_rest.len() as int), k));
                assert(seq![x].drop_first() =~= Seq::<T>::empty());
                assert(keyed(Seq::<T>::empty(), k) == Seq::<T>::empty());
                assert(seq![x][0] == x);
                if x.key_of() == k {
                    assert forall|i: int| 0 <= i < front.len() implies (#[trigger] front[i]).key_of() != k by {
                        assert(front[i] == old_out[i]);
                        assert(seq_less(old_out[i].key_of(), x.key_of()));
                        lemma_seq_less_irreflexive(x.key_of());
                    }
                    lemma_keyed_none(front, k);
                    assert(keyed(front, k) + keyed(back, k) =~= keyed(back, k));
                    assert(keyed(front, k) + (keyed(seq![x], k) + keyed(back, k)) =~= keyed(seq![x], k) + keyed(back, k));
                } else {
                    assert(keyed(seq![x], k) =~= Seq::<T>::empty());
                    assert(keyed(front, k) + (keyed(seq![x], k) + keyed(back, k)) =~= keyed(front, k) + keyed(back, k));
                    assert(keyed(seq![x], k) + keyed(input.skip(before_rest.len() as int), k) =~= keyed(input.skip(before_rest.len() as int), k));
                }
            }
            vstd::seq_lib::to_multiset_insert(old_out, p as int, x);
            assert(out@ == old_out.insert(p as int, x));
            assert forall|i: int, j: int| 0 <= i < j < out@.len() implies seq_le(
                #[trigger] out@[i].key_of(),
                #[trigger] out@[j].key_of(),
            ) by {
                if j < p {
                    assert(out@[i] == old_out[i] && out@[j] == old_out[j]);
                } else if j == p {
                    assert(out@[i] == old_out[i]);
                } else if i == p {
                    assert(out@[j] == old_out[j - 1]);
                    if j - 1 > p {
                        assert(seq_le(old_out[p as int].key_of(), old_out[j - 1].key_of()));
                        lemma_le_transitive(x.key_of(), old_out[p as int].key_of(), old_out[j - 1].key_of());
                    }
                } else if i < p {
                    assert(out@[i] == old_out[i] && out@[j] == old_out[j - 1]);
                    assert(seq_less(old_out[i].key_of(), x.key_of()));
                    if j - 1 >= p {
                        if j - 1 > p {
                            assert(seq_le(old_out[p as int].key_of(), old_out[j - 1].key_of()));
                            lemma_le_transitive(x.key_of(), old_out[p as int].key_of(), old_out[j - 1].key_of());
                        }
                        lemma_le_transitive(old_out[i].key_of(), x.key_of(), old_out[j - 1].key_of());
                    }
                } else {
                    assert(out@[i] == old_out[i - 1] && out@[j] == old_out[j - 1]);
                }
            }
        }
    }
    proof {
        assert(rest@.to_multiset() =~= vstd::multiset::Multiset::<T>::empty());
        assert(out@.to_multiset() =~= v@.to_multiset());
        assert(input.skip(0) =~= input);
    }
    out
}

} // verus!
