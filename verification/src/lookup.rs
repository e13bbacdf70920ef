//! Finding the first element of a sequence that meets a condition.

use vstd::prelude::*;

verus! {

/// Whether `i` is the position of the first element of `s` that meets
/// `wanted`.
pub open spec fn is_first<T>(s: Seq<T>, wanted: spec_fn(T) -> bool, i: int) -> bool {
    &&& 0 <= i < s.len()
    &&& wanted(s[i])
    &&& forall|k: int| 0 <= k < i ==> !wanted(#[trigger] s[k])
}

/// The position of the first element of `s` that meets `wanted`, if there is
/// one.
pub open spec fn first_index<T>(s: Seq<T>, wanted: spec_fn(T) -> bool) -> Option<int> {
    if exists|i: int| is_first(s, wanted, i) {
        Some(choose|i: int| is_first(s, wanted, i))
    } else {
        None
    }
}

/// A position that is first is the one `first_index` names.
pub proof fn lemma_first_index_found<T>(s: Seq<T>, wanted: spec_fn(T) -> bool, i: int)
    requires
        is_first(s, wanted, i),
    ensures
        first_index(s, wanted) == Some(i),
{
    let j = choose|j: int| is_first(s, wanted, j);
    assert(is_first(s, wanted, j));
    if j < i {
        assert(!wanted(s[j]));
    }
    if i < j {
        assert(!wanted(s[i]));
    }
}

/// Where no element meets the condition, `first_index` names none.
pub proof fn lemma_first_index_absent<T>(s: Seq<T>, wanted: spec_fn(T) -> bool)
    requires
        forall|k: int| 0 <= k < s.len() ==> !wanted(#[trigger] s[k]),
    ensures
        first_index(s, wanted) is None,
{
    if exists|i: int| is_first(s, wanted, i) {
        let j = choose|j: int| is_first(s, wanted, j);
        assert(!wanted(s[j]));
    }
}

/// What `first_index` says of the sequence either way.
pub proof fn lemma_first_index<T>(s: Seq<T>, wanted: spec_fn(T) -> bool)
    ensures
        match first_index(s, wanted) {
            Some(i) => is_first(s, wanted, i),
            None => forall|k: int| 0 <= k < s.len() ==> !wanted(#[trigger] s[k]),
        },
{
    if exists|i: int| is_first(s, wanted, i) {
        let j = choose|j: int| is_first(s, wanted, j);
        assert(is_first(s, wanted, j));
    } else {
        assert forall|k: int| 0 <= k < s.len() implies !wanted(#[trigger] s[k]) by {
            if wanted(s[k]) {
                lemma_some_is_first(s, wanted, k);
            }
        }
    }
}

/// If some element up to position `k` meets the condition, one of them is
/// the first to do so.
proof fn lemma_some_is_first<T>(s: Seq<T>, wanted: spec_fn(T) -> bool, k: int)
    requires
        0 <= k < s.len(),
        wanted(s[k]),
    ensures
        exists|i: int| is_first(s, wanted, i),
    decreases k,
{
    if exists|j: int| 0 <= j < k && wanted(#[trigger] s[j]) {
        let j = choose|j: int| 0 <= j < k && wanted(#[trigger] s[j]);
        lemma_some_is_first(s, wanted, j);
    } else {
        assert(is_first(s, wanted, k));
    }
}

/// Appending an element leaves an earlier first match in place, and makes the
/// new element the first match if there was none and it qualifies.
pub proof fn lemma_first_index_push<T>(s: Seq<T>, wanted: spec_fn(T) -> bool, last: T)
    ensures
        first_index(s.push(last), wanted) == match first_index(s, wanted) {
            Some(i) => Some(i),
            None => if wanted(last) {
                Some(s.len() as int)
            } else {
                None
            },
        },
{
    lemma_first_index(s, wanted);
    let t = s.push(last);
    match first_index(s, wanted) {
        Some(i) => {
            assert(t[i] == s[i]);
            assert forall|k: int| 0 <= k < i implies !wanted(#[trigger] t[k]) by {
                assert(t[k] == s[k]);
            }
            lemma_first_index_found(t, wanted, i);
        },
        None => {
            if wanted(last) {
                assert forall|k: int| 0 <= k < s.len() implies !wanted(#[trigger] t[k]) by {
                    assert(t[k] == s[k]);
                }
                lemma_first_index_found(t, wanted, s.len() as int);
            } else {
                assert forall|k: int| 0 <= k < t.len() implies !wanted(#[trigger] t[k]) by {
                    if k < s.len() {
                        assert(t[k] == s[k]);
                    }
                }
                lemma_first_index_absent(t, wanted);
            }
        },
    }
}

/// Two sequences of one length in which the same positions qualify have
/// their first match at the same position.
pub proof fn lemma_first_index_agree<T, U>(
    s: Seq<T>,
    wanted: spec_fn(T) -> bool,
    t: Seq<U>,
    sought: spec_fn(U) -> bool,
)
    requires
        s.len() == t.len(),
        forall|k: int| 0 <= k < s.len() ==> wanted(#[trigger] s[k]) == sought(t[k]),
    ensures
        first_index(s, wanted) == first_index(t, sought),
{
    lemma_first_index(s, wanted);
    match first_index(s, wanted) {
        Some(i) => {
            assert(sought(t[i]) == wanted(s[i]));
            assert forall|k: int| 0 <= k < i implies !sought(#[trigger] t[k]) by {
                assert(wanted(s[k]) == sought(t[k]));
            }
            lemma_first_index_found(t, sought, i);
        },
        None => {
            assert forall|k: int| 0 <= k < t.len() implies !sought(#[trigger] t[k]) by {
                assert(wanted(s[k]) == sought(t[k]));
            }
            lemma_first_index_absent(t, sought);
        },
    }
}

/// The positions below `n` that meet `wanted`, in ascending order.
pub open spec fn select(n: int, wanted: spec_fn(int) -> bool) -> Seq<int>
    decreases n,
{
    if n <= 0 {
        Seq::empty()
    } else if wanted(n - 1) {
        select(n - 1, wanted).push(n - 1)
    } else {
        select(n - 1, wanted)
    }
}

/// `select` holds exactly the positions below `n` that meet the condition,
/// each once and in ascending order.
pub proof fn lemma_select(n: int, wanted: spec_fn(int) -> bool)
    ensures
        select(n, wanted).len() <= if n < 0 { 0 } else { n },
        forall|k: int|
            0 <= k < select(n, wanted).len() ==> 0 <= (#[trigger] select(n, wanted)[k]) < n
                && wanted(select(n, wanted)[k]),
        forall|i: int| 0 <= i < n && wanted(i) ==> #[trigger] select(n, wanted).contains(i),
        forall|a: int, b: int|
            0 <= a < b < select(n, wanted).len() ==> (#[trigger] select(n, wanted)[a]) < (
            #[trigger] select(n, wanted)[b]),
    decreases n,
{
    if n > 0 {
        lemma_select(n - 1, wanted);
        let shorter = select(n - 1, wanted);
        let whole = select(n, wanted);
        if wanted(n - 1) {
            assert(whole[shorter.len() as int] == n - 1);
            assert forall|i: int| 0 <= i < n && wanted(i) implies #[trigger] whole.contains(
                i,
            ) by {
                if i < n - 1 {
                    assert(shorter.contains(i));
                    let k = choose|k: int| 0 <= k < shorter.len() && shorter[k] == i;
                    assert(whole[k] == i);
                } else {
                    assert(whole[shorter.len() as int] == i);
                }
            }
        } else {
            assert forall|i: int| 0 <= i < n && wanted(i) implies #[trigger] whole.contains(
                i,
            ) by {
                assert(shorter.contains(i));
            }
        }
    }
}

} // verus!
