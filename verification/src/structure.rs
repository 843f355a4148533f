//! Values that are compared and copied by what they hold, and lists of them.

use vstd::prelude::*;

verus! {

/// The models of the values in a list, one for one.
pub open spec fn views<T: View>(s: Seq<T>) -> Seq<T::V> {
    Seq::new(s.len(), |i: int| s[i]@)
}

/// A value with a model, which can be compared and copied by that model.
pub trait Structure: View + Sized {
    /// Whether the two values have the same model.
    fn same(&self, other: &Self) -> (r: bool)
        ensures
            r == (self@ == other@),
    ;

    /// A value with the same model.
    fn duplicate(&self) -> (r: Self)
        ensures
            r@ == self@,
    ;
}

/// The models of a longer list are those of the list and of the new value.
pub proof fn lemma_views_push<T: View>(s: Seq<T>, x: T)
    ensures
        views(s.push(x)) == views(s).push(x@),
{
    assert(views(s.push(x)) =~= views(s).push(x@));
}

/// The models of a concatenation are the models of its parts.
pub proof fn lemma_views_concat<T: View>(a: Seq<T>, b: Seq<T>)
    ensures
        views(a + b) == views(a) + views(b),
{
    assert(views(a + b) =~= views(a) + views(b));
}

/// The first place at which `x` stands in `s`, or the length of `s` where
/// it stands nowhere.
pub open spec fn first_index<A>(s: Seq<A>, x: A) -> int
    decreases s.len(),
{
    if s.len() == 0 {
        0
    } else if s[0] == x {
        0
    } else {
        1 + first_index(s.skip(1), x)
    }
}

/// The sequence without its first `x`.
pub open spec fn without_first<A>(s: Seq<A>, x: A) -> Seq<A> {
    if first_index(s, x) < s.len() {
        s.remove(first_index(s, x))
    } else {
        s
    }
}

/// The place that holds `x` and has no `x` before it is the first.
pub proof fn lemma_first_index<A>(s: Seq<A>, x: A, at: int)
    requires
        0 <= at <= s.len(),
        at < s.len() ==> s[at] == x,
        forall|j: int| 0 <= j < at ==> s[j] != x,
    ensures
        first_index(s, x) == at,
    decreases s.len(),
{
    if s.len() > 0 && at > 0 {
        assert(s[0] != x);
        let rest = s.skip(1);
        assert forall|j: int| 0 <= j < at - 1 implies rest[j] != x by {
            assert(rest[j] == s[j + 1]);
        }
        lemma_first_index(rest, x, at - 1);
    }
}

/// The test that a value does not stand in `s`.
pub open spec fn not_among<A>(s: Seq<A>) -> spec_fn(A) -> bool {
    |x: A| !s.contains(x)
}

/// The test that a value is another than `x`.
pub open spec fn other_than<A>(x: A) -> spec_fn(A) -> bool {
    |y: A| y != x
}

/// Two tests that agree on every value keep the same values.
pub proof fn lemma_filter_agrees<A>(s: Seq<A>, p: spec_fn(A) -> bool, q: spec_fn(A) -> bool)
    requires
        forall|x: A| #[trigger] p(x) == q(x),
    ensures
        s.filter(p) == s.filter(q),
    decreases s.len(),
{
    reveal(Seq::filter);
    if s.len() > 0 {
        lemma_filter_agrees(s.drop_last(), p, q);
    }
}

/// Where `first_index` points: at an `x` with no `x` before it, or past
/// the end of a sequence that holds none.
pub proof fn lemma_first_index_points<A>(s: Seq<A>, x: A)
    ensures
        0 <= first_index(s, x) <= s.len(),
        first_index(s, x) < s.len() ==> s[first_index(s, x)] == x,
        forall|j: int| 0 <= j < first_index(s, x) ==> s[j] != x,
        first_index(s, x) < s.len() <==> s.contains(x),
    decreases s.len(),
{
    if s.len() > 0 && s[0] != x {
        let rest = s.skip(1);
        lemma_first_index_points(rest, x);
        let at = first_index(rest, x);
        assert forall|j: int| 0 <= j < at + 1 implies s[j] != x by {
            if j > 0 {
                assert(rest[j - 1] == s[j]);
            }
        }
        if at < rest.len() {
            assert(rest[at] == s[at + 1]);
        }
    }
    let found = first_index(s, x);
    if s.contains(x) && found >= s.len() {
        let j = choose|j: int| 0 <= j < s.len() && s[j] == x;
        assert(s[j] != x);
    }
}

/// Where nothing stands twice, the sequence without its first `x` holds no
/// `x`, holds every other value that the sequence held, and nothing twice.
pub proof fn lemma_without_first_distinct<A>(s: Seq<A>, x: A)
    requires
        s.no_duplicates(),
    ensures
        without_first(s, x).no_duplicates(),
        !without_first(s, x).contains(x),
        forall|y: A| y != x ==> #[trigger] without_first(s, x).contains(y) == s.contains(y),
{
    lemma_first_index_points(s, x);
    let at = first_index(s, x);
    let rest = without_first(s, x);
    if at < s.len() {
        s.remove_ensures(at);
        assert forall|i: int, j: int| 0 <= i < rest.len() && 0 <= j < rest.len() && i != j implies rest[i]
            != rest[j] by {
            let a = if i < at { i } else { i + 1 };
            let b = if j < at { j } else { j + 1 };
            assert(rest[i] == s[a] && rest[j] == s[b]);
        }
        if rest.contains(x) {
            let i = choose|i: int| 0 <= i < rest.len() && rest[i] == x;
            let a = if i < at { i } else { i + 1 };
            assert(rest[i] == s[a]);
        }
        assert forall|y: A| y != x implies #[trigger] rest.contains(y) == s.contains(y) by {
            if rest.contains(y) {
                let i = choose|i: int| 0 <= i < rest.len() && rest[i] == y;
                let a = if i < at { i } else { i + 1 };
                assert(s[a] == y);
            }
            if s.contains(y) {
                let a = choose|a: int| 0 <= a < s.len() && s[a] == y;
                let i = if a < at { a } else { a - 1 };
                assert(rest[i] == y);
            }
        }
    }
}

/// A sequence that is filtered holds the values that it held and that pass.
pub proof fn lemma_filter_holds<A>(s: Seq<A>, keep: spec_fn(A) -> bool)
    ensures
        forall|y: A| #[trigger] s.filter(keep).contains(y) == (s.contains(y) && keep(y)),
{
    assert forall|y: A| #[trigger] s.filter(keep).contains(y) == (s.contains(y) && keep(y)) by {
        if s.filter(keep).contains(y) {
            let i = choose|i: int| 0 <= i < s.filter(keep).len() && s.filter(keep)[i] == y;
            s.lemma_filter_pred(keep, i);
            s.lemma_filter_contains_rev(keep, y);
        }
        if s.contains(y) && keep(y) {
            let a = choose|a: int| 0 <= a < s.len() && s[a] == y;
            s.lemma_filter_contains(keep, a);
        }
    }
}

/// Filtering a sequence without repeats leaves none.
pub proof fn lemma_filter_keeps_distinct<A>(s: Seq<A>, keep: spec_fn(A) -> bool)
    requires
        s.no_duplicates(),
    ensures
        s.filter(keep).no_duplicates(),
    decreases s.len(),
{
    reveal(Seq::filter);
    if s.len() > 0 {
        let init = s.drop_last();
        lemma_filter_keeps_distinct(init, keep);
        if keep(s.last()) {
            let f = init.filter(keep);
            assert forall|i: int, j: int|
                0 <= i < f.len() + 1 && 0 <= j < f.len() + 1 && i != j implies f.push(s.last())[i]
                != f.push(s.last())[j] by {
                if i < f.len() {
                    assert(f.contains(f[i]));
                    init.lemma_filter_contains_rev(keep, f[i]);
                    let a = choose|a: int| 0 <= a < init.len() && init[a] == f[i];
                    assert(s[a] == f[i]);
                }
                if j < f.len() {
                    assert(f.contains(f[j]));
                    init.lemma_filter_contains_rev(keep, f[j]);
                    let b = choose|b: int| 0 <= b < init.len() && init[b] == f[j];
                    assert(s[b] == f[j]);
                }
            }
        }
    }
}

/// Where `x` stands first in `list`, if it stands there at all.
pub fn list_index_of<T: Structure>(list: &Vec<T>, x: &T) -> (r: Option<usize>)
    ensures
        match r {
            Some(at) => {
                &&& at < list.len()
                &&& list@[at as int]@ == x@
                &&& at == first_index(views(list@), x@)
            },
            None => !views(list@).contains(x@) && first_index(views(list@), x@) == list.len(),
        },
{
    let mut i: usize = 0;
    while i < list.len()
        invariant
            i <= list.len(),
            forall|j: int| 0 <= j < i ==> list@[j]@ != x@,
        decreases list.len() - i,
    {
        if list[i].same(x) {
            proof {
                lemma_first_index(views(list@), x@, i as int);
            }
            return Some(i);
        }
        i += 1;
    }
    proof {
        if views(list@).contains(x@) {
            let j = choose|j: int| 0 <= j < views(list@).len() && views(list@)[j] == x@;
            assert(list@[j]@ == x@);
        }
        lemma_first_index(views(list@), x@, i as int);
    }
    None
}

/// Whether `x` stands in `list`.
pub fn list_contains<T: Structure>(list: &Vec<T>, x: &T) -> (r: bool)
    ensures
        r == views(list@).contains(x@),
{
    match list_index_of(list, x) {
        Some(at) => {
            proof {
                assert(views(list@)[at as int] == x@);
            }
            true
        },
        None => false,
    }
}

/// A copy of `list`.
pub fn list_duplicate<T: Structure>(list: &Vec<T>) -> (r: Vec<T>)
    ensures
        views(r@) == views(list@),
{
    let mut out: Vec<T> = Vec::new();
    let mut i: usize = 0;
    while i < list.len()
        invariant
            i <= list.len(),
            out.len() == i,
            forall|j: int| 0 <= j < i ==> out@[j]@ == list@[j]@,
        decreases list.len() - i,
    {
        let item = list[i].duplicate();
        out.push(item);
        i += 1;
    }
    proof {
        assert(views(out@) =~= views(list@));
    }
    out
}

/// Whether the two lists hold the same values in the same order.
pub fn list_same<T: Structure>(a: &Vec<T>, b: &Vec<T>) -> (r: bool)
    ensures
        r == (views(a@) == views(b@)),
{
    if a.len() != b.len() {
        proof {
            assert(views(a@).len() != views(b@).len());
        }
        return false;
    }
    let mut i: usize = 0;
    while i < a.len()
        invariant
            i <= a.len(),
            a.len() == b.len(),
            forall|j: int| 0 <= j < i ==> a@[j]@ == b@[j]@,
        decreases a.len() - i,
    {
        if !a[i].same(&b[i]) {
            proof {
                assert(views(a@)[i as int] != views(b@)[i as int]);
            }
            return false;
        }
        i += 1;
    }
    proof {
        assert(views(a@) =~= views(b@));
    }
    true
}

/// The values of `list` that do not stand in `exclude`, in their order.
pub fn list_without<T: Structure>(list: &Vec<T>, exclude: &Vec<T>) -> (r: Vec<T>)
    ensures
        views(r@) == views(list@).filter(not_among(views(exclude@))),
{
    let ghost keep = not_among(views(exclude@));
    let ghost all = views(list@);
    let mut out: Vec<T> = Vec::new();
    let mut i: usize = 0;
    while i < list.len()
        invariant
            i <= list.len(),
            all == views(list@),
            keep == not_among(views(exclude@)),
            views(out@) == all.take(i as int).filter(keep),
        decreases list.len() - i,
    {
        let ghost before = out@;
        let excluded = list_contains(exclude, &list[i]);
        proof {
            assert(all.take(i + 1) =~= all.take(i as int).push(all[i as int]));
            all.take(i as int).lemma_filter_push(all[i as int], keep);
        }
        if !excluded {
            let item = list[i].duplicate();
            out.push(item);
            proof {
                lemma_views_push(before, item);
            }
        }
        i += 1;
    }
    proof {
        assert(all.take(i as int) =~= all);
    }
    out
}

} // verus!
