//! Sequences with some of their elements left out.

use vstd::prelude::*;

verus! {

/// `s`, and no more of it than its first `n`.
pub open spec fn at_most<T>(s: Seq<T>, n: int) -> Seq<T> {
    if s.len() <= n {
        s
    } else {
        s.take(n)
    }
}

/// The elements of `s` that pass `test`, in order.
pub open spec fn only<T>(s: Seq<T>, test: spec_fn(T) -> bool) -> Seq<T>
    decreases s.len(),
{
    if s.len() == 0 {
        Seq::empty()
    } else if test(s.last()) {
        only(s.drop_last(), test).push(s.last())
    } else {
        only(s.drop_last(), test)
    }
}

/// One element more.
pub proof fn lemma_only_step<T>(s: Seq<T>, test: spec_fn(T) -> bool, n: int)
    requires
        0 <= n < s.len(),
    ensures
        only(s.take(n + 1), test) == (if test(s[n]) {
            only(s.take(n), test).push(s[n])
        } else {
            only(s.take(n), test)
        }),
{
    assert(s.take(n + 1).drop_last() =~= s.take(n));
    assert(s.take(n + 1).last() == s[n]);
}

/// What passes is in the sequence, and passes; and whatever is in it and
/// passes, is kept.
pub proof fn lemma_only<T>(s: Seq<T>, test: spec_fn(T) -> bool)
    ensures
        only(s, test).len() <= s.len(),
        forall|i: int|
            0 <= i < only(s, test).len() ==> test(#[trigger] only(s, test)[i]) && s.contains(
                only(s, test)[i],
            ),
        forall|i: int|
            0 <= i < s.len() && test(#[trigger] s[i]) ==> only(s, test).contains(s[i]),
    decreases s.len(),
{
    if s.len() > 0 {
        let rest = s.drop_last();
        lemma_only(rest, test);
        let kept = only(s, test);
        assert forall|i: int| 0 <= i < kept.len() implies test(#[trigger] kept[i]) && s.contains(
            kept[i],
        ) by {
            if i < only(rest, test).len() {
                assert(kept[i] == only(rest, test)[i]);
                let k = choose|k: int| 0 <= k < rest.len() && rest[k] == kept[i];
                assert(s[k] == kept[i]);
            } else {
                assert(s[s.len() - 1] == kept[i]);
            }
        }
        assert forall|i: int| 0 <= i < s.len() && test(#[trigger] s[i]) implies kept.contains(
            s[i],
        ) by {
            if i < rest.len() {
                assert(rest[i] == s[i]);
                let k = choose|k: int| 0 <= k < only(rest, test).len() && only(rest, test)[k]
                    == s[i];
                assert(kept[k] == s[i]);
            } else {
                assert(kept[kept.len() - 1] == s[i]);
            }
        }
    }
}

/// The first element of `s` that passes `test`.
pub open spec fn first_of<T>(s: Seq<T>, test: spec_fn(T) -> bool) -> Option<T>
    decreases s.len(),
{
    if s.len() == 0 {
        None
    } else {
        match first_of(s.drop_last(), test) {
            Some(x) => Some(x),
            None => if test(s.last()) {
                Some(s.last())
            } else {
                None
            },
        }
    }
}

/// What is first in a part of a sequence is first in all of it.
pub proof fn lemma_first_part<T>(s: Seq<T>, test: spec_fn(T) -> bool, n: int)
    requires
        0 <= n <= s.len(),
        first_of(s.take(n), test) is Some,
    ensures
        first_of(s, test) == first_of(s.take(n), test),
    decreases s.len() - n,
{
    if n < s.len() {
        assert(s.take(n + 1).drop_last() =~= s.take(n));
        lemma_first_part(s, test, n + 1);
    } else {
        assert(s.take(n) =~= s);
    }
}

/// There is a first one exactly where there is one, and nothing before it
/// passes.
pub proof fn lemma_first_of<T>(s: Seq<T>, test: spec_fn(T) -> bool)
    ensures
        first_of(s, test) is Some <==> exists|i: int| 0 <= i < s.len() && test(#[trigger] s[i]),
        first_of(s, test) matches Some(x) ==> exists|i: int|
            0 <= i < s.len() && #[trigger] s[i] == x && test(x) && (forall|j: int|
                0 <= j < i ==> !test(#[trigger] s[j])),
    decreases s.len(),
{
    if s.len() > 0 {
        let rest = s.drop_last();
        lemma_first_of(rest, test);
        match first_of(rest, test) {
            Some(x) => {
                let i = choose|i: int|
                    0 <= i < rest.len() && #[trigger] rest[i] == x && test(x) && (forall|j: int|
                        0 <= j < i ==> !test(#[trigger] rest[j]));
                assert(s[i] == x);
                assert forall|j: int| 0 <= j < i implies !test(#[trigger] s[j]) by {
                    assert(rest[j] == s[j]);
                }
            },
            None => {
                assert forall|j: int| 0 <= j < rest.len() implies !test(#[trigger] s[j]) by {
                    assert(rest[j] == s[j]);
                }
                if test(s.last()) {
                    assert(s[s.len() - 1] == s.last());
                }
            },
        }
    }
}

/// The sum of what `value` gives for each element.
pub open spec fn sum_by<T>(s: Seq<T>, value: spec_fn(T) -> nat) -> nat
    decreases s.len(),
{
    if s.len() == 0 {
        0
    } else {
        sum_by(s.drop_last(), value) + value(s.last())
    }
}

/// `n`, or the largest number where it does not fit.
pub open spec fn sat64(n: nat) -> u64 {
    if n > u64::MAX {
        u64::MAX
    } else {
        n as u64
    }
}

/// `n`, or the largest number where it does not fit.
pub open spec fn sat32(n: nat) -> u32 {
    if n > u32::MAX {
        u32::MAX
    } else {
        n as u32
    }
}

/// A length, or the largest number where it does not fit.
pub fn len_u32(n: usize) -> (len: u32)
    ensures
        len == sat32(n as nat),
{
    if n > 4_294_967_295 {
        4_294_967_295
    } else {
        n as u32
    }
}

/// What a sequence holds once something is put at its end.
pub proof fn lemma_push_contains<T>(s: Seq<T>, x: T)
    ensures
        forall|k: T| #[trigger] s.push(x).contains(k) <==> s.contains(k) || k == x,
{
    assert forall|k: T| #[trigger] s.push(x).contains(k) <==> s.contains(k) || k == x by {
        if s.contains(k) {
            let i = choose|i: int| 0 <= i < s.len() && s[i] == k;
            assert(s.push(x)[i] == k);
        }
        if k == x {
            assert(s.push(x)[s.len() as int] == k);
        }
    }
}

} // verus!
