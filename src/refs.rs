//! The reference table: definitions sorted by label, and the lookup of a
//! link destination among them.
use vstd::prelude::*;
use vstd::multiset::Multiset;
use crate::event::Reference;
use crate::text::{text_le, chars_of, text_le_exec, lemma_text_le_total, lemma_text_le_trans, eq_ignoring_ascii_case, text_eq_ignore_ascii_case};

verus! {

/// The definitions are in order of their labels.
pub open spec fn sorted_by_label(refs: Seq<Reference>) -> bool {
    forall|i: int, j: int| 0 <= i < j < refs.len() ==> text_le(refs[i].label@, refs[j].label@)
}

/// Places `r` among the sorted `out` so that they stay sorted.
fn insert_sorted(out: &mut Vec<Reference>, r: Reference)
    requires
        sorted_by_label(old(out)@),
    ensures
        sorted_by_label(final(out)@),
        final(out)@.to_multiset() == old(out)@.to_multiset().insert(r),
{
    let key = chars_of(r.label.as_str());
    let mut p: usize = 0;
    while p < out.len() && text_le_exec(&chars_of(out[p].label.as_str()), &key)
        invariant
            p <= out@.len(),
            key@ == r.label@,
            forall|j: int| 0 <= j < p ==> text_le(out@[j].label@, r.label@),
        decreases out@.len() - p,
    {
        p += 1;
    }
    let ghost before = out@;
    proof {
        if p < before.len() {
            lemma_text_le_total(before[p as int].label@, r.label@);
            assert forall|q: int| p <= q < before.len() implies text_le(
                r.label@,
                #[trigger] before[q].label@,
            ) by {
                if q > p {
                    lemma_text_le_trans(r.label@, before[p as int].label@, before[q].label@);
                }
            }
        }
    }
    out.insert(p, r);
    proof {
        vstd::seq_lib::to_multiset_insert(before, p as int, r);
        assert forall|i: int, j: int| 0 <= i < j < out@.len() implies text_le(
            out@[i].label@,
            out@[j].label@,
        ) by {
            if j < p {
            } else if j == p {
            } else if i < p {
                lemma_text_le_trans(before[i].label@, r.label@, before[j - 1].label@);
            } else if i == p {
            } else {
            }
        }
    }
}

/// The definitions in order of their labels.
pub fn sort_references(refs: Vec<Reference>) -> (r: Vec<Reference>)
    ensures
        sorted_by_label(r@),
        r@.to_multiset() == refs@.to_multiset(),
{
    broadcast use vstd::seq_lib::group_to_multiset_ensures, vstd::multiset::group_multiset_axioms;

    let mut rest = refs;
    let mut out: Vec<Reference> = Vec::new();
    assert(out@.to_multiset().add(rest@.to_multiset()) =~= refs@.to_multiset());
    while rest.len() > 0
        invariant
            sorted_by_label(out@),
            out@.to_multiset().add(rest@.to_multiset()) == refs@.to_multiset(),
        decreases rest@.len(),
    {
        let ghost prev = rest@;
        let r = rest.pop().unwrap();
        proof {
            assert(prev == rest@.push(r));
            vstd::seq_lib::to_multiset_insert(rest@, rest@.len() as int, r);
            assert(rest@.insert(rest@.len() as int, r) == prev);
        }
        insert_sorted(&mut out, r);
        proof {
            assert(out@.to_multiset().add(rest@.to_multiset()) =~= refs@.to_multiset());
        }
    }
    proof {
        assert(rest@ =~= Seq::<Reference>::empty());
        assert(rest@.to_multiset() =~= Multiset::empty());
        assert(out@.to_multiset().add(Multiset::empty()) =~= out@.to_multiset());
    }
    out
}

/// Finds the first definition whose destination matches `dest`, ignoring
/// ASCII case.
pub fn find_by_dest(refs: &Vec<Reference>, dest: &Vec<char>) -> (r: Option<usize>)
    ensures
        match r {
            Some(i) => i < refs@.len() && eq_ignoring_ascii_case(dest@, refs@[i as int].dest@)
                && forall|j: int| 0 <= j < i ==> !eq_ignoring_ascii_case(dest@, #[trigger] refs@[j].dest@),
            None => forall|j: int|
                0 <= j < refs@.len() ==> !eq_ignoring_ascii_case(dest@, #[trigger] refs@[j].dest@),
        },
{
    let mut i: usize = 0;
    while i < refs.len()
        invariant
            i <= refs@.len(),
            forall|j: int| 0 <= j < i ==> !eq_ignoring_ascii_case(dest@, #[trigger] refs@[j].dest@),
        decreases refs@.len() - i,
    {
        if text_eq_ignore_ascii_case(dest, &chars_of(refs[i].dest.as_str())) {
            return Some(i);
        }
        i += 1;
    }
    None
}

} // verus!
