//! The clauses of a comprehension evaluated eagerly over vectors, each
//! element of each sequence borrowed.  This is a second, eager reading of a
//! comprehension; nothing here is proved about the lazy iterator chain that
//! `expand` writes out.
//!
//! `mapping for x in xs if c(x)` is `innermost_clause(&xs, |x| c(x), |x| mapping)`,
//! and each clause around it is an `outer_clause` whose `inner` evaluates the
//! rest.

use vstd::prelude::*;

verus! {

/// The values picked out, in order.
pub open spec fn kept<U>(picks: Seq<Option<U>>) -> Seq<U>
    decreases picks.len(),
{
    if picks.len() == 0 {
        Seq::empty()
    } else {
        kept(picks.drop_last()) + match picks.last() {
            Some(u) => seq![u],
            None => Seq::empty(),
        }
    }
}

/// The sequences picked out, concatenated in order.
pub open spec fn kept_flat<U>(picks: Seq<Option<Seq<U>>>) -> Seq<U>
    decreases picks.len(),
{
    if picks.len() == 0 {
        Seq::empty()
    } else {
        kept_flat(picks.drop_last()) + match picks.last() {
            Some(us) => us,
            None => Seq::empty(),
        }
    }
}

/// Each element that is picked out contributes its value, in order, and
/// the others contribute nothing: keeping no picks keeps nothing, a further
/// pick appends exactly its value, a further refusal changes nothing, as many
/// values are kept as there are picks, and the values kept are the picks'
/// values in order (`filter_map` of the picks).
pub proof fn lemma_kept_keeps_each_pick<U>(picks: Seq<Option<U>>, u: U)
    ensures
        kept(Seq::<Option<U>>::empty()) == Seq::<U>::empty(),
        kept(picks.push(Some(u))) == kept(picks).push(u),
        kept(picks.push(None)) == kept(picks),
        kept(picks).len() == picks.filter(|p: Option<U>| p is Some).len(),
        kept(picks) == picks.filter_map(|p: Option<U>| p),
    decreases picks.len(),
{
    assert(picks.push(Some(u)).drop_last() =~= picks);
    assert(picks.push(None::<U>).drop_last() =~= picks);
    assert(kept(picks.push(Some(u))) =~= kept(picks).push(u));
    reveal_with_fuel(Seq::filter, 1);
    if picks.len() > 0 {
        lemma_kept_keeps_each_pick(picks.drop_last(), u);
        let f = |p: Option<U>| p;
        match picks.last() {
            Some(v) => {
                assert(kept(picks) =~= kept(picks.drop_last()).push(v));
                assert(picks.filter_map(f) =~= picks.drop_last().filter_map(f) + seq![v]);
            },
            None => {
                assert(kept(picks) =~= kept(picks.drop_last()));
            },
        }
    }
}

/// Each element that is picked out contributes all of its values, in order,
/// and the others contribute nothing: a further pick appends exactly its
/// values, a further refusal changes nothing, and the values kept are the
/// picks' values concatenated in order.
pub proof fn lemma_kept_flat_keeps_each_pick<U>(picks: Seq<Option<Seq<U>>>, us: Seq<U>)
    ensures
        kept_flat(Seq::<Option<Seq<U>>>::empty()) == Seq::<U>::empty(),
        kept_flat(picks.push(Some(us))) == kept_flat(picks) + us,
        kept_flat(picks.push(None)) == kept_flat(picks),
        kept_flat(picks) == picks.filter_map(|p: Option<Seq<U>>| p).flatten(),
    decreases picks.len(),
{
    assert(picks.push(Some(us)).drop_last() =~= picks);
    assert(picks.push(None::<Seq<U>>).drop_last() =~= picks);
    if picks.len() > 0 {
        lemma_kept_flat_keeps_each_pick(picks.drop_last(), us);
        let f = |p: Option<Seq<U>>| p;
        let rest = picks.drop_last().filter_map(f);
        match picks.last() {
            Some(v) => {
                assert(picks.filter_map(f) =~= rest + seq![v]);
                assert(rest + seq![v] =~= rest.push(v));
                rest.lemma_flatten_push(v);
                assert(kept_flat(picks) =~= kept_flat(picks.drop_last()) + v);
            },
            None => {
                assert(kept_flat(picks) =~= kept_flat(picks.drop_last()));
            },
        }
    } else {
        assert(picks.filter_map(|p: Option<Seq<U>>| p) =~= Seq::<Seq<U>>::empty());
        assert(kept_flat(picks) =~= Seq::<U>::empty());
    }
}

/// What one element gives: `None` where `keep` refused it, and otherwise
/// what `f` made of it.
pub open spec fn picked<T, U, K: Fn(&T) -> bool, F: Fn(&T) -> U>(
    keep: K,
    f: F,
    x: T,
    pick: Option<U>,
) -> bool {
    match pick {
        Some(u) => keep.ensures((&x,), true) && f.ensures((&x,), u),
        None => keep.ensures((&x,), false),
    }
}

/// The innermost clause: each element of `sequence` that `keep` accepts,
/// mapped by `mapping`, in order.
pub fn innermost_clause<T, U, K: Fn(&T) -> bool, M: Fn(&T) -> U>(
    sequence: &Vec<T>,
    keep: K,
    mapping: M,
) -> (r: Vec<U>)
    requires
        forall|i: int| 0 <= i < sequence@.len() ==> keep.requires((&sequence@[i],)),
        forall|i: int| 0 <= i < sequence@.len() ==> mapping.requires((&sequence@[i],)),
    ensures
        exists|picks: Seq<Option<U>>|
            {
                &&& picks.len() == sequence@.len()
                &&& forall|i: int|
                    0 <= i < sequence@.len() ==> picked(keep, mapping, sequence@[i], #[trigger] picks[i])
                &&& r@ == kept(picks)
            },
{
    let mut r: Vec<U> = Vec::new();
    let ghost mut picks: Seq<Option<U>> = Seq::empty();
    let n = sequence.len();
    let mut i: usize = 0;
    while i < n
        invariant
            n == sequence@.len(),
            i <= n,
            forall|j: int| 0 <= j < sequence@.len() ==> keep.requires((&sequence@[j],)),
            forall|j: int| 0 <= j < sequence@.len() ==> mapping.requires((&sequence@[j],)),
            picks.len() == i,
            forall|j: int| 0 <= j < i ==> picked(keep, mapping, sequence@[j], #[trigger] picks[j]),
            r@ == kept(picks),
        decreases n - i,
    {
        let x = &sequence[i];
        let ghost before = picks;
        if keep(x) {
            let u = mapping(x);
            proof {
                picks = picks.push(Some(u));
            }
            r.push(u);
        } else {
            proof {
                picks = picks.push(None);
            }
        }
        proof {
            assert(picks.drop_last() =~= before);
            assert forall|j: int| 0 <= j < i + 1 implies picked(
                keep,
                mapping,
                sequence@[j],
                #[trigger] picks[j],
            ) by {
                if j < i {
                    assert(picks[j] == before[j]);
                }
            }
        }
        i = i + 1;
    }
    r
}

/// A clause around others: for each element of `sequence` that `keep`
/// accepts, what `inner` evaluates for it, concatenated in order.
pub fn outer_clause<T, U, K: Fn(&T) -> bool, I: Fn(&T) -> Vec<U>>(
    sequence: &Vec<T>,
    keep: K,
    inner: I,
) -> (r: Vec<U>)
    requires
        forall|i: int| 0 <= i < sequence@.len() ==> keep.requires((&sequence@[i],)),
        forall|i: int| 0 <= i < sequence@.len() ==> inner.requires((&sequence@[i],)),
    ensures
        exists|picks: Seq<Option<Vec<U>>>|
            {
                &&& picks.len() == sequence@.len()
                &&& forall|i: int|
                    0 <= i < sequence@.len() ==> picked(keep, inner, sequence@[i], #[trigger] picks[i])
                &&& r@ == kept_flat(picks.map_values(|p: Option<Vec<U>>| match p {
                    Some(v) => Some(v@),
                    None => None,
                }))
            },
{
    let mut r: Vec<U> = Vec::new();
    let ghost mut picks: Seq<Option<Vec<U>>> = Seq::empty();
    let n = sequence.len();
    let mut i: usize = 0;
    while i < n
        invariant
            n == sequence@.len(),
            i <= n,
            forall|j: int| 0 <= j < sequence@.len() ==> keep.requires((&sequence@[j],)),
            forall|j: int| 0 <= j < sequence@.len() ==> inner.requires((&sequence@[j],)),
            picks.len() == i,
            forall|j: int| 0 <= j < i ==> picked(keep, inner, sequence@[j], #[trigger] picks[j]),
            r@ == kept_flat(picks.map_values(|p: Option<Vec<U>>| match p {
                Some(v) => Some(v@),
                None => None,
            })),
        decreases n - i,
    {
        let x = &sequence[i];
        let ghost before = picks;
        let ghost r_before = r@;
        if keep(x) {
            let mut v = inner(x);
            proof {
                picks = picks.push(Some(v));
            }
            r.append(&mut v);
        } else {
            proof {
                picks = picks.push(None);
            }
        }
        proof {
            let f = |p: Option<Vec<U>>| match p {
                Some(v) => Some(v@),
                None => None,
            };
            assert(picks.map_values(f).drop_last() =~= before.map_values(f));
            assert forall|j: int| 0 <= j < i + 1 implies picked(
                keep,
                inner,
                sequence@[j],
                #[trigger] picks[j],
            ) by {
                if j < i {
                    assert(picks[j] == before[j]);
                }
            }
        }
        i = i + 1;
    }
    r
}

} // verus!
