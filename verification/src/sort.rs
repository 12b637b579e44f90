//! Sorted listings. The store returns subjects ascending by name and notes
//! descending by `updated_at`; both orders are produced here by selection
//! sort, proved to return a permutation of the input in the stated order.

use vstd::prelude::*;
use crate::model::Note;
use crate::model::Subject;
use crate::model::notes_sorted_by_updated_desc;
use crate::model::subjects_sorted_by_name;
use crate::text::lemma_lex_le_refl;
use crate::text::lemma_lex_le_total;
use crate::text::lemma_lex_le_trans;
use crate::text::lex_le;
use crate::text::str_le;

verus! {

broadcast use vstd::seq_lib::group_to_multiset_ensures, vstd::multiset::group_multiset_axioms;

/// Sorts subjects ascending by name.
pub fn sort_subjects_by_name(v: Vec<Subject>) -> (r: Vec<Subject>)
    ensures
        subjects_sorted_by_name(r@),
        r@.to_multiset() == v@.to_multiset(),
        r@.len() == v@.len(),
{
    let mut rest = v;
    let mut out: Vec<Subject> = Vec::new();
    proof {
        assert(out@.to_multiset().add(rest@.to_multiset()) =~= rest@.to_multiset());
    }
    let ghost orig = rest@;
    while rest.len() > 0
        invariant
            out@.to_multiset().add(rest@.to_multiset()) == orig.to_multiset(),
            out@.len() + rest@.len() == orig.len(),
            subjects_sorted_by_name(out@),
            forall|i: int, j: int|
                0 <= i < out@.len() && 0 <= j < rest@.len() ==> lex_le(
                    #[trigger] out@[i].name@,
                    #[trigger] rest@[j].name@,
                ),
        decreases rest.len(),
    {
        let mut best: usize = 0;
        let mut t: usize = 1;
        proof {
            lemma_lex_le_refl(rest@[0].name@);
        }
        while t < rest.len()
            invariant
                0 < rest@.len(),
                best < t,
                t <= rest@.len(),
                forall|j: int| 0 <= j < t ==> lex_le(rest@[best as int].name@, #[trigger] rest@[j].name@),
            decreases rest@.len() - t,
        {
            if str_le(rest[t].name.as_str(), rest[best].name.as_str()) {
                proof {
                    lemma_lex_le_refl(rest@[t as int].name@);
                    assert forall|j: int| 0 <= j < t implies lex_le(
                        rest@[t as int].name@,
                        #[trigger] rest@[j].name@,
                    ) by {
                        lemma_lex_le_trans(
                            rest@[t as int].name@,
                            rest@[best as int].name@,
                            rest@[j].name@,
                        );
                    }
                }
                best = t;
            } else {
                proof {
                    lemma_lex_le_total(rest@[best as int].name@, rest@[t as int].name@);
                }
            }
            t += 1;
        }
        let ghost prev_out = out@;
        let ghost prev_rest = rest@;
        let m = rest.remove(best);
        out.push(m);
        proof {
            assert(prev_rest.contains(m)) by {
                assert(prev_rest[best as int] == m);
            }
            assert(rest@.to_multiset() =~= prev_rest.to_multiset().remove(m));
            assert(out@.to_multiset().add(rest@.to_multiset()) =~= orig.to_multiset());
            assert forall|i: int, j: int|
                0 <= i < j < out@.len() implies lex_le(out@[i].name@, out@[j].name@) by {
                if j == out@.len() - 1 {
                    assert(out@[i] == prev_out[i]);
                }
            }
            assert forall|i: int, j: int|
                0 <= i < out@.len() && 0 <= j < rest@.len() implies lex_le(
                out@[i].name@,
                rest@[j].name@,
            ) by {
                assert(rest@[j] == if j < best { prev_rest[j] } else { prev_rest[j + 1] });
                if i < out@.len() - 1 {
                    assert(out@[i] == prev_out[i]);
                } else {
                    assert(out@[i] == m);
                }
            }
        }
    }
    out
}

/// Sorts notes descending by `updated_at`, most recently modified first.
pub fn sort_notes_by_updated_desc(v: Vec<Note>) -> (r: Vec<Note>)
    ensures
        notes_sorted_by_updated_desc(r@),
        r@.to_multiset() == v@.to_multiset(),
        r@.len() == v@.len(),
{
    let mut rest = v;
    let mut out: Vec<Note> = Vec::new();
    proof {
        assert(out@.to_multiset().add(rest@.to_multiset()) =~= rest@.to_multiset());
    }
    let ghost orig = rest@;
    while rest.len() > 0
        invariant
            out@.to_multiset().add(rest@.to_multiset()) == orig.to_multiset(),
            out@.len() + rest@.len() == orig.len(),
            notes_sorted_by_updated_desc(out@),
            forall|i: int, j: int|
                0 <= i < out@.len() && 0 <= j < rest@.len() ==> lex_le(
                    #[trigger] rest@[j].updated_at@,
                    #[trigger] out@[i].updated_at@,
                ),
        decreases rest.len(),
    {
        let mut best: usize = 0;
        let mut t: usize = 1;
        proof {
            lemma_lex_le_refl(rest@[0].updated_at@);
        }
        while t < rest.len()
            invariant
                0 < rest@.len(),
                best < t,
                t <= rest@.len(),
                forall|j: int|
                    0 <= j < t ==> lex_le(#[trigger] rest@[j].updated_at@, rest@[best as int].updated_at@),
            decreases rest@.len() - t,
        {
            if str_le(rest[best].updated_at.as_str(), rest[t].updated_at.as_str()) {
                proof {
                    lemma_lex_le_refl(rest@[t as int].updated_at@);
                    assert forall|j: int| 0 <= j < t implies lex_le(
                        #[trigger] rest@[j].updated_at@,
                        rest@[t as int].updated_at@,
                    ) by {
                        lemma_lex_le_trans(
                            rest@[j].updated_at@,
                            rest@[best as int].updated_at@,
                            rest@[t as int].updated_at@,
                        );
                    }
                }
                best = t;
            } else {
                proof {
                    lemma_lex_le_total(rest@[best as int].updated_at@, rest@[t as int].updated_at@);
                }
            }
            t += 1;
        }
        let ghost prev_out = out@;
        let ghost prev_rest = rest@;
        let m = rest.remove(best);
        out.push(m);
        proof {
            assert(prev_rest.contains(m)) by {
                assert(prev_rest[best as int] == m);
            }
            assert(rest@.to_multiset() =~= prev_rest.to_multiset().remove(m));
            assert(out@.to_multiset().add(rest@.to_multiset()) =~= orig.to_multiset());
            assert forall|i: int, j: int|
                0 <= i < j < out@.len() implies lex_le(out@[j].updated_at@, out@[i].updated_at@) by {
                if j == out@.len() - 1 {
                    assert(out@[i] == prev_out[i]);
                }
            }
            assert forall|i: int, j: int|
                0 <= i < out@.len() && 0 <= j < rest@.len() implies lex_le(
                rest@[j].updated_at@,
                out@[i].updated_at@,
            ) by {
                assert(rest@[j] == if j < best { prev_rest[j] } else { prev_rest[j + 1] });
                if i < out@.len() - 1 {
                    assert(out@[i] == prev_out[i]);
                } else {
                    assert(out@[i] == m);
                }
            }
        }
    }
    out
}

} // verus!
