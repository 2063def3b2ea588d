use vstd::prelude::*;

verus! {

/// `i` is the lowest position at which `marks` holds.
pub open spec fn is_first(marks: Seq<bool>, i: int) -> bool {
    &&& 0 <= i < marks.len()
    &&& marks[i]
    &&& forall|j: int| 0 <= j < i ==> !(#[trigger] marks[j])
}

/// `i` is the highest position at which `marks` holds.
pub open spec fn is_last(marks: Seq<bool>, i: int) -> bool {
    &&& 0 <= i < marks.len()
    &&& marks[i]
    &&& forall|j: int| i < j < marks.len() ==> !(#[trigger] marks[j])
}

/// The lowest position at which `marks` holds, if there is one.
pub open spec fn first(marks: Seq<bool>) -> Option<int> {
    if exists|i: int| is_first(marks, i) {
        Some(choose|i: int| is_first(marks, i))
    } else {
        None
    }
}

/// The highest position at which `marks` holds, if there is one.
pub open spec fn last(marks: Seq<bool>) -> Option<int> {
    if exists|i: int| is_last(marks, i) {
        Some(choose|i: int| is_last(marks, i))
    } else {
        None
    }
}

/// `first` finds what `is_first` describes.
pub proof fn lemma_first_is(marks: Seq<bool>, i: int)
    requires
        is_first(marks, i),
    ensures
        first(marks) == Some(i),
{
    let k = choose|k: int| is_first(marks, k);
    assert(is_first(marks, k));
    assert(k == i) by {
        if k < i {
            assert(!marks[k]);
        } else if i < k {
            assert(!marks[i]);
        }
    }
}

/// `last` finds what `is_last` describes.
pub proof fn lemma_last_is(marks: Seq<bool>, i: int)
    requires
        is_last(marks, i),
    ensures
        last(marks) == Some(i),
{
    let k = choose|k: int| is_last(marks, k);
    assert(is_last(marks, k));
    assert(k == i) by {
        if k < i {
            assert(!marks[i]);
        } else if i < k {
            assert(!marks[k]);
        }
    }
}

/// `first` finds nothing exactly when no position is marked.
pub proof fn lemma_first_none(marks: Seq<bool>)
    ensures
        first(marks) is None <==> forall|i: int| 0 <= i < marks.len() ==> !(#[trigger] marks[i]),
        first(marks) matches Some(i) ==> is_first(marks, i),
    decreases marks.len(),
{
    if marks.len() > 0 {
        let shorter = marks.drop_last();
        lemma_first_none(shorter);
        if first(shorter) is Some {
            let i = first(shorter)->0;
            assert(is_first(shorter, i));
            assert(marks[i] == shorter[i]);
            assert forall|j: int| 0 <= j < i implies !(#[trigger] marks[j]) by {
                assert(!shorter[j]);
            }
            assert(is_first(marks, i));
        } else {
            assert forall|j: int| 0 <= j < marks.len() - 1 implies !(#[trigger] marks[j]) by {
                assert(!shorter[j]);
            }
            if marks.last() {
                assert(is_first(marks, marks.len() - 1));
            }
        }
    }
}

/// `last` finds nothing exactly when no position is marked.
pub proof fn lemma_last_none(marks: Seq<bool>)
    ensures
        last(marks) is None <==> forall|i: int| 0 <= i < marks.len() ==> !(#[trigger] marks[i]),
        last(marks) matches Some(i) ==> is_last(marks, i),
    decreases marks.len(),
{
    if marks.len() > 0 {
        if marks.last() {
            assert(is_last(marks, marks.len() - 1));
        } else {
            let shorter = marks.drop_last();
            lemma_last_none(shorter);
            if last(shorter) is Some {
                let i = last(shorter)->0;
                assert(is_last(shorter, i));
                assert(marks[i] == shorter[i]);
                assert forall|j: int| i < j < marks.len() implies !(#[trigger] marks[j]) by {
                    if j < marks.len() - 1 {
                        assert(!shorter[j]);
                    }
                }
                assert(is_last(marks, i));
            } else {
                assert forall|j: int| 0 <= j < marks.len() implies !(#[trigger] marks[j]) by {
                    if j < marks.len() - 1 {
                        assert(!shorter[j]);
                    }
                }
            }
        }
    }
}

} // verus!
