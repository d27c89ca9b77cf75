//! Lists of items identified by a part of them.
//!
//! An item of the state (of type `A`) is brought in line with an item of a
//! specification (of type `S`) which identifies it.

use vstd::prelude::*;

verus! {

/// How items of the state go by items of a specification.
#[verifier::reject_recursive_types(A)]
#[verifier::reject_recursive_types(S)]
pub struct Rules<A, S> {
    /// Whether an item of the state is identified by the specified one.
    pub same: spec_fn(A, S) -> bool,
    /// What an item of the state becomes by the specified one.
    pub apply: spec_fn(A, S) -> A,
    /// What item of the state is newly made of the specified one.
    pub make: spec_fn(S) -> A,
}

/// Position of the first of the `items` identified by the `wanted` one.
pub open spec fn find<A, S>(items: Seq<A>, wanted: S, same: spec_fn(A, S) -> bool) -> Option<int>
    decreases items.len(),
{
    if items.len() == 0 {
        None
    } else if same(items[0], wanted) {
        Some(0)
    } else {
        match find(items.drop_first(), wanted, same) {
            Some(n) => Some(n + 1),
            None => None,
        }
    }
}

/// The `items` without the `n`th one, whose place the last one takes.
pub open spec fn swap_removed<A>(items: Seq<A>, n: int) -> Seq<A> {
    items.update(n, items.last()).drop_last()
}

/// What replaces the `olds` by the `news`: as many items in the same order,
/// each of them being either the first of the `olds` it's identified by, taken
/// from there and brought in line, or a newly made one.
pub open spec fn replaced<A, S>(olds: Seq<A>, news: Seq<S>, rules: Rules<A, S>) -> Seq<A>
    decreases news.len(),
{
    if news.len() == 0 {
        seq![]
    } else {
        match find(olds, news[0], rules.same) {
            Some(n) => seq![(rules.apply)(olds[n], news[0])] + replaced(
                swap_removed(olds, n),
                news.drop_first(),
                rules,
            ),
            None => seq![(rules.make)(news[0])] + replaced(olds, news.drop_first(), rules),
        }
    }
}

/// What merging the `new` one into the `items` gives: the first of the items
/// it identifies is brought in line, or a newly made one is added to the end.
pub open spec fn merged_one<A, S>(items: Seq<A>, new: S, rules: Rules<A, S>) -> Seq<A> {
    match find(items, new, rules.same) {
        Some(n) => items.update(n, (rules.apply)(items[n], new)),
        None => items.push((rules.make)(new)),
    }
}

/// What merging the `news` into the `items`, one after another, gives.
pub open spec fn merged<A, S>(items: Seq<A>, news: Seq<S>, rules: Rules<A, S>) -> Seq<A>
    decreases news.len(),
{
    if news.len() == 0 {
        items
    } else {
        merged(merged_one(items, news[0], rules), news.drop_first(), rules)
    }
}

/// The `items` but those identified by the `unwanted` one.
pub open spec fn without<A, S>(items: Seq<A>, unwanted: S, same: spec_fn(A, S) -> bool) -> Seq<A> {
    items.filter(|item: A| !same(item, unwanted))
}

/// [`find`] gives the position of an item which is identified by the wanted
/// one, while no one before it is, or tells that there is none.
pub proof fn lemma_find<A, S>(items: Seq<A>, wanted: S, same: spec_fn(A, S) -> bool)
    ensures
        match find(items, wanted, same) {
            Some(n) => {
                &&& 0 <= n < items.len()
                &&& same(items[n], wanted)
                &&& forall|i: int| 0 <= i < n ==> !same(#[trigger] items[i], wanted)
            },
            None => forall|i: int| 0 <= i < items.len() ==> !same(#[trigger] items[i], wanted),
        },
    decreases items.len(),
{
    if items.len() > 0 && !same(items[0], wanted) {
        let rest = items.drop_first();
        lemma_find(rest, wanted, same);
        assert forall|i: int| 0 < i < items.len() implies items[i] == rest[i - 1] by {}
        match find(rest, wanted, same) {
            Some(m) => {
                assert forall|i: int| 0 <= i < m + 1 implies !same(#[trigger] items[i], wanted) by {
                    if i > 0 {
                        assert(!same(rest[i - 1], wanted));
                    }
                }
            },
            None => {
                assert forall|i: int| 0 <= i < items.len() implies !same(
                    #[trigger] items[i],
                    wanted,
                ) by {
                    if i > 0 {
                        assert(!same(rest[i - 1], wanted));
                    }
                }
            },
        }
    }
}

/// An item identified by the wanted one, while no one before it is, is the one
/// that [`find`] gives the position of.
pub proof fn lemma_found<A, S>(items: Seq<A>, wanted: S, same: spec_fn(A, S) -> bool, n: int)
    requires
        0 <= n < items.len(),
        same(items[n], wanted),
        forall|i: int| 0 <= i < n ==> !same(#[trigger] items[i], wanted),
    ensures
        find(items, wanted, same) == Some(n),
{
    lemma_find(items, wanted, same);
}

/// If none of the items is identified by the wanted one, [`find`] tells so.
pub proof fn lemma_not_found<A, S>(items: Seq<A>, wanted: S, same: spec_fn(A, S) -> bool)
    requires
        forall|i: int| 0 <= i < items.len() ==> !same(#[trigger] items[i], wanted),
    ensures
        find(items, wanted, same) is None,
{
    lemma_find(items, wanted, same);
}

/// Lists of items that are identified alike have the same one found.
pub proof fn lemma_find_alike<A, S>(a: Seq<A>, b: Seq<A>, wanted: S, same: spec_fn(A, S) -> bool)
    requires
        a.len() == b.len(),
        forall|i: int|
            0 <= i < a.len() ==> same(#[trigger] a[i], wanted) == same(b[i], wanted),
    ensures
        find(a, wanted, same) == find(b, wanted, same),
{
    lemma_find(a, wanted, same);
    lemma_find(b, wanted, same);
    if let Some(n) = find(a, wanted, same) {
        assert(same(a[n], wanted) == same(b[n], wanted));
    }
    if let Some(n) = find(b, wanted, same) {
        assert(same(a[n], wanted) == same(b[n], wanted));
    }
}

/// Replacing by the next of the `news`, when the `done` ones stand for those
/// before it already.
pub proof fn lemma_replaced_next<A, S>(
    done: Seq<A>,
    olds: Seq<A>,
    news: Seq<S>,
    n: int,
    rules: Rules<A, S>,
)
    requires
        0 <= n < news.len(),
    ensures
        done + replaced(olds, news.skip(n), rules) == match find(olds, news[n], rules.same) {
            Some(m) => done.push((rules.apply)(olds[m], news[n])) + replaced(
                swap_removed(olds, m),
                news.skip(n + 1),
                rules,
            ),
            None => done.push((rules.make)(news[n])) + replaced(olds, news.skip(n + 1), rules),
        },
{
    let rest = news.skip(n);
    assert(rest[0] == news[n]);
    assert(rest.drop_first() == news.skip(n + 1));
    match find(olds, news[n], rules.same) {
        Some(m) => {
            let next = (rules.apply)(olds[m], news[n]);
            let more = replaced(swap_removed(olds, m), news.skip(n + 1), rules);
            assert(done + (seq![next] + more) == done.push(next) + more);
        },
        None => {
            let next = (rules.make)(news[n]);
            let more = replaced(olds, news.skip(n + 1), rules);
            assert(done + (seq![next] + more) == done.push(next) + more);
        },
    }
}

/// Merging the next of the `news`.
pub proof fn lemma_merged_next<A, S>(items: Seq<A>, news: Seq<S>, n: int, rules: Rules<A, S>)
    requires
        0 <= n < news.len(),
    ensures
        merged(items, news.skip(n), rules) == merged(
            merged_one(items, news[n], rules),
            news.skip(n + 1),
            rules,
        ),
{
    assert(news.skip(n)[0] == news[n]);
    assert(news.skip(n).drop_first() == news.skip(n + 1));
}

/// Merging takes nothing away, and adds no more than there are new ones.
pub proof fn lemma_merged_grows<A, S>(items: Seq<A>, news: Seq<S>, rules: Rules<A, S>)
    ensures
        items.len() <= merged(items, news, rules).len() <= items.len() + news.len(),
    decreases news.len(),
{
    if news.len() > 0 {
        lemma_find(items, news[0], rules.same);
        lemma_merged_grows(merged_one(items, news[0], rules), news.drop_first(), rules);
    }
}

/// Leaving out the unwanted ones, the next of the items is left out as well if
/// it's an unwanted one.
pub proof fn lemma_without_next<A, S>(
    items: Seq<A>,
    n: int,
    unwanted: S,
    same: spec_fn(A, S) -> bool,
)
    requires
        0 <= n < items.len(),
    ensures
        without(items.take(n + 1), unwanted, same) == if same(items[n], unwanted) {
            without(items.take(n), unwanted, same)
        } else {
            without(items.take(n), unwanted, same).push(items[n])
        },
{
    reveal(Seq::filter);
    assert(items.take(n + 1).drop_last() == items.take(n));
}

/// Tells whether every one of the items is related to the one at the same place.
pub open spec fn pairwise<A>(a: Seq<A>, b: Seq<A>, related: spec_fn(A, A) -> bool) -> bool {
    &&& a.len() == b.len()
    &&& forall|i: int|
        #![trigger a[i]]
        #![trigger b[i]]
        0 <= i < a.len() ==> related(a[i], b[i])
}

/// Adding related items keeps lists related.
pub proof fn lemma_pairwise_push<A>(
    a: Seq<A>,
    b: Seq<A>,
    x: A,
    y: A,
    related: spec_fn(A, A) -> bool,
)
    requires
        pairwise(a, b, related),
        related(x, y),
    ensures
        pairwise(a.push(x), b.push(y), related),
{
    assert forall|i: int| 0 <= i < a.push(x).len() implies related(a.push(x)[i], b.push(y)[i]) by {
        if i < a.len() {
            assert(related(a[i], b[i]));
        }
    }
}

/// Substituting related items keeps lists related.
pub proof fn lemma_pairwise_update<A>(
    a: Seq<A>,
    b: Seq<A>,
    n: int,
    x: A,
    y: A,
    related: spec_fn(A, A) -> bool,
)
    requires
        0 <= n < a.len(),
        pairwise(a, b, related),
        related(x, y),
    ensures
        pairwise(a.update(n, x), b.update(n, y), related),
{
    assert forall|i: int| 0 <= i < a.len() implies related(
        a.update(n, x)[i],
        b.update(n, y)[i],
    ) by {
        assert(related(a[i], b[i]));
    }
}

/// Taking items out of the same place keeps lists related.
pub proof fn lemma_pairwise_swap_removed<A>(
    a: Seq<A>,
    b: Seq<A>,
    n: int,
    related: spec_fn(A, A) -> bool,
)
    requires
        0 <= n < a.len(),
        pairwise(a, b, related),
    ensures
        pairwise(swap_removed(a, n), swap_removed(b, n), related),
{
    assert(related(a.last(), b.last()));
    assert forall|i: int| 0 <= i < a.len() - 1 implies related(
        swap_removed(a, n)[i],
        swap_removed(b, n)[i],
    ) by {
        assert(related(a[i], b[i]));
    }
}

/// The first of the `items` which either has been `seen` already, or is equal
/// to an earlier one.
pub open spec fn first_clash<A>(seen: Set<A>, items: Seq<A>) -> Option<A>
    decreases items.len(),
{
    if items.len() == 0 {
        None
    } else if seen.contains(items[0]) {
        Some(items[0])
    } else {
        first_clash(seen.insert(items[0]), items.drop_first())
    }
}

/// A clash among items of two lists is the one among the items of the first
/// list or, if there is none, the one among the items of the second list, once
/// those of the first list have been seen.
pub proof fn lemma_first_clash_in_sum<A>(seen: Set<A>, a: Seq<A>, b: Seq<A>)
    ensures
        first_clash(seen, a + b) == match first_clash(seen, a) {
            Some(item) => Some(item),
            None => first_clash(seen.union(a.to_set()), b),
        },
    decreases a.len(),
{
    if a.len() == 0 {
        assert(a + b == b);
        assert(seen.union(a.to_set()) == seen);
    } else if !seen.contains(a[0]) {
        let rest = a.drop_first();
        assert((a + b).drop_first() == rest + b);
        lemma_first_clash_in_sum(seen.insert(a[0]), rest, b);
        assert(a.to_set() == rest.to_set().insert(a[0])) by {
            assert forall|x: A| a.contains(x) == rest.to_set().insert(a[0]).contains(x) by {
                if a.contains(x) {
                    let i = a.index_of(x);
                    if i > 0 {
                        assert(rest[i - 1] == x);
                    }
                }
                if rest.contains(x) {
                    let i = rest.index_of(x);
                    assert(a[i + 1] == x);
                }
                assert(a[0] == a[0]);
            }
        }
        assert(seen.insert(a[0]).union(rest.to_set()) == seen.union(a.to_set()));
    }
}

/// There is no clash exactly when all the items are different, and none of
/// them has been seen.
pub proof fn lemma_no_clash<A>(seen: Set<A>, items: Seq<A>)
    ensures
        first_clash(seen, items) is None <==> items.no_duplicates() && forall|i: int|
            0 <= i < items.len() ==> !seen.contains(#[trigger] items[i]),
    decreases items.len(),
{
    if items.len() > 0 {
        let rest = items.drop_first();
        lemma_no_clash(seen.insert(items[0]), rest);
        assert forall|i: int| 0 < i < items.len() implies items[i] == rest[i - 1] by {}
        if first_clash(seen, items) is None {
            assert forall|i: int, j: int|
                0 <= i < items.len() && 0 <= j < items.len() && i != j implies items[i]
                != items[j] by {
                if i > 0 && j > 0 {
                    assert(rest[i - 1] != rest[j - 1]);
                } else if i > 0 {
                    assert(!seen.insert(items[0]).contains(rest[i - 1]));
                } else {
                    assert(!seen.insert(items[0]).contains(rest[j - 1]));
                }
            }
            assert forall|i: int| 0 <= i < items.len() implies !seen.contains(
                #[trigger] items[i],
            ) by {
                if i > 0 {
                    assert(!seen.insert(items[0]).contains(rest[i - 1]));
                }
            }
        } else if items.no_duplicates() && forall|i: int|
            0 <= i < items.len() ==> !seen.contains(#[trigger] items[i]) {
            assert(!seen.contains(items[0]));
            assert forall|i: int| 0 <= i < rest.len() implies !seen.insert(items[0]).contains(
                #[trigger] rest[i],
            ) by {
                assert(rest[i] == items[i + 1]);
            }
            assert(rest.no_duplicates());
        }
    }
}

/// Going over the items one by one, the first one that has been met before is
/// the clash among all of them.
pub proof fn lemma_next_clash<A>(items: Seq<A>, n: int)
    requires
        0 <= n < items.len(),
        first_clash(Set::empty(), items.take(n)) is None,
    ensures
        items.take(n).contains(items[n]) ==> first_clash(Set::empty(), items) == Some(items[n]),
        !items.take(n).contains(items[n]) ==> first_clash(Set::empty(), items.take(n + 1)) is None,
{
    let met = items.take(n);
    let seen = Set::<A>::empty().union(met.to_set());
    lemma_first_clash_in_sum(Set::empty(), met, items.skip(n));
    assert(met + items.skip(n) == items);
    assert(items.skip(n)[0] == items[n]);
    lemma_first_clash_in_sum(Set::empty(), met, seq![items[n]]);
    assert(met + seq![items[n]] == items.take(n + 1));
    assert(seen.contains(items[n]) == met.contains(items[n]));
    assert(seq![items[n]].drop_first().len() == 0);
    assert(first_clash(seen.insert(items[n]), seq![items[n]].drop_first()) is None);
}

/// Tells whether no two of the `news` identify one and the same item.
pub open spec fn news_differ<A, S>(news: Seq<S>, same: spec_fn(A, S) -> bool) -> bool {
    forall|i: int, j: int, item: A|
        #![trigger same(item, news[i]), same(item, news[j])]
        0 <= i < j < news.len() ==> !(same(item, news[i]) && same(item, news[j]))
}

/// Tells whether no two of the `items` are identified by one and the same.
pub open spec fn items_differ<A, S>(items: Seq<A>, same: spec_fn(A, S) -> bool) -> bool {
    forall|i: int, j: int, new: S|
        #![trigger same(items[i], new), same(items[j], new)]
        0 <= i < j < items.len() ==> !(same(items[i], new) && same(items[j], new))
}

/// Tells whether items made and brought in line by the `rules` are identified
/// by what they have been made of and brought in line with, and whether what
/// identifies one and the same item identifies the same items at all.
#[verifier::opaque]
pub open spec fn are_sound<A, S>(rules: Rules<A, S>) -> bool {
    &&& forall|item: A, new: S| #[trigger]
        (rules.same)(item, new) ==> (rules.same)((rules.apply)(item, new), new)
    &&& forall|new: S| (rules.same)(#[trigger] (rules.make)(new), new)
    &&& forall|a: A, b: A, s: S, t: S|
        #![trigger (rules.same)(a, s), (rules.same)(a, t), (rules.same)(b, t)]
        (rules.same)(a, s) && (rules.same)(a, t) && (rules.same)(b, t) ==> (rules.same)(b, s)
}

/// By sound rules, an item remains identified by what it's brought in line with.
proof fn lemma_applied_is_same<A, S>(item: A, new: S, rules: Rules<A, S>)
    requires
        are_sound(rules),
        (rules.same)(item, new),
    ensures
        (rules.same)((rules.apply)(item, new), new),
{
    reveal(are_sound);
}

/// By sound rules, an item is identified by what it's made of.
proof fn lemma_made_is_same<A, S>(new: S, rules: Rules<A, S>)
    requires
        are_sound(rules),
    ensures
        (rules.same)((rules.make)(new), new),
{
    reveal(are_sound);
    assert((rules.same)((rules.make)(new), new));
}

/// By sound rules, what identifies one and the same item identifies the same
/// items.
proof fn lemma_same_news<A, S>(a: A, b: A, s: S, t: S, rules: Rules<A, S>)
    requires
        are_sound(rules),
        (rules.same)(a, s),
        (rules.same)(a, t),
        (rules.same)(b, t),
    ensures
        (rules.same)(b, s),
{
    reveal(are_sound);
}

/// What stands for the `new` one once it's applied to the `olds`.
pub open spec fn successor<A, S>(olds: Seq<A>, new: S, rules: Rules<A, S>) -> A {
    match find(olds, new, rules.same) {
        Some(n) => (rules.apply)(olds[n], new),
        None => (rules.make)(new),
    }
}

/// Taking an item out leaves different ones.
proof fn lemma_swap_removed_differ<A, S>(items: Seq<A>, n: int, same: spec_fn(A, S) -> bool)
    requires
        0 <= n < items.len(),
        items_differ(items, same),
    ensures
        items_differ(swap_removed(items, n), same),
{
    let rest = swap_removed(items, n);
    let last = items.len() - 1;
    assert forall|i: int, j: int, new: S|
        #![trigger same(rest[i], new), same(rest[j], new)]
        0 <= i < j < rest.len() implies !(same(rest[i], new) && same(rest[j], new)) by {
        let a = if i == n { last } else { i };
        let b = if j == n { last } else { j };
        assert(rest[i] == items[a] && rest[j] == items[b]);
        if a < b {
            assert(!(same(items[a], new) && same(items[b], new)));
        } else {
            assert(!(same(items[b], new) && same(items[a], new)));
        }
    }
}

/// Taking an item out doesn't affect what is found by others.
proof fn lemma_found_after_swap_removed<A, S>(
    items: Seq<A>,
    n: int,
    wanted: S,
    same: spec_fn(A, S) -> bool,
)
    requires
        0 <= n < items.len(),
        items_differ(items, same),
        !same(items[n], wanted),
    ensures
        match find(items, wanted, same) {
            Some(m) => find(swap_removed(items, n), wanted, same) matches Some(k)
                && swap_removed(items, n)[k] == items[m],
            None => find(swap_removed(items, n), wanted, same) is None,
        },
{
    let rest = swap_removed(items, n);
    let last = items.len() - 1;
    lemma_find(items, wanted, same);
    lemma_find(rest, wanted, same);
    match find(items, wanted, same) {
        Some(m) => {
            let k = if m == last { n } else { m };
            assert(k < rest.len() && rest[k] == items[m]);
            assert(same(rest[k], wanted));
            let found = find(rest, wanted, same)->0;
            let a = if found == n { last } else { found };
            assert(same(items[a], wanted));
            if a < m {
                assert(!(same(items[a], wanted) && same(items[m], wanted)));
            } else if m < a {
                assert(!(same(items[m], wanted) && same(items[a], wanted)));
            }
        },
        None => {
            if let Some(found) = find(rest, wanted, same) {
                let a = if found == n { last } else { found };
                assert(same(items[a], wanted));
            }
        },
    }
}

/// Replacing different items by different ones, each of the latter stands for
/// the one it identifies, wherever that one has been.
pub proof fn lemma_replaced_by_differing<A, S>(olds: Seq<A>, news: Seq<S>, rules: Rules<A, S>)
    requires
        items_differ(olds, rules.same),
        news_differ(news, rules.same),
    ensures
        replaced(olds, news, rules) == Seq::new(
            news.len(),
            |i: int| successor(olds, news[i], rules),
        ),
    decreases news.len(),
{
    let same = rules.same;
    let goal = Seq::new(news.len(), |i: int| successor(olds, news[i], rules));
    if news.len() == 0 {
        assert(replaced(olds, news, rules) =~= goal);
    } else {
        let rest = news.drop_first();
        assert(news_differ(rest, same)) by {
            assert forall|i: int, j: int, item: A|
                #![trigger same(item, rest[i]), same(item, rest[j])]
                0 <= i < j < rest.len() implies !(same(item, rest[i]) && same(item, rest[j])) by {
                assert(!(same(item, news[i + 1]) && same(item, news[j + 1])));
            }
        }
        lemma_find(olds, news[0], same);
        match find(olds, news[0], same) {
            Some(n) => {
                let left = swap_removed(olds, n);
                lemma_swap_removed_differ(olds, n, same);
                lemma_replaced_by_differing(left, rest, rules);
                assert forall|i: int| 0 <= i < rest.len() implies successor(left, rest[i], rules)
                    == successor(olds, #[trigger] news[i + 1], rules) by {
                    assert(!(same(olds[n], news[0]) && same(olds[n], news[i + 1])));
                    lemma_found_after_swap_removed(olds, n, rest[i], same);
                }
            },
            None => lemma_replaced_by_differing(olds, rest, rules),
        }
        let made = replaced(olds, news, rules);
        assert forall|i: int| 0 <= i < news.len() implies made[i] == goal[i] by {
            if i > 0 {
                assert(news[i - 1 + 1] == rest[i - 1]);
            }
        }
        assert(made =~= goal);
    }
}

/// As many items as specified replace whatever items, each of them being made
/// of what is specified, or brought in line with it.
pub proof fn lemma_replaced<A, S>(olds: Seq<A>, news: Seq<S>, rules: Rules<A, S>)
    ensures
        replaced(olds, news, rules).len() == news.len(),
        forall|i: int|
            0 <= i < news.len() ==> stems_from(
                #[trigger] replaced(olds, news, rules)[i],
                news[i],
                rules,
            ),
    decreases news.len(),
{
    if news.len() > 0 {
        let rest = news.drop_first();
        let left = match find(olds, news[0], rules.same) {
            Some(n) => swap_removed(olds, n),
            None => olds,
        };
        lemma_replaced(left, rest, rules);
        let made = replaced(olds, news, rules);
        assert forall|i: int| 0 <= i < news.len() implies stems_from(
            #[trigger] made[i],
            news[i],
            rules,
        ) by {
            if i > 0 {
                assert(made[i] == replaced(left, rest, rules)[i - 1]);
                assert(news[i] == rest[i - 1]);
            } else if let Some(n) = find(olds, news[0], rules.same) {
                assert(made[0] == (rules.apply)(olds[n], news[0]));
            } else {
                assert(made[0] == (rules.make)(news[0]));
            }
        }
    }
}

/// Tells whether the `item` either is made of the `new` one, or has been
/// brought in line with it.
pub open spec fn stems_from<A, S>(item: A, new: S, rules: Rules<A, S>) -> bool {
    item == (rules.make)(new) || exists|old: A| item == #[trigger] (rules.apply)(old, new)
}

/// Tells whether the `n`th of the `items` is what is found by one of the `news`.
pub open spec fn is_wanted<A, S>(
    items: Seq<A>,
    n: int,
    news: Seq<S>,
    same: spec_fn(A, S) -> bool,
) -> bool {
    exists|i: int| 0 <= i < news.len() && find(items, #[trigger] news[i], same) == Some(n)
}

/// Merging one brings exactly one item in line, or adds it.
proof fn lemma_merged_one<A, S>(items: Seq<A>, new: S, rules: Rules<A, S>)
    requires
        are_sound(rules),
    ensures
        ({
            let after = merged_one(items, new, rules);
            &&& find(after, new, rules.same) matches Some(n) && {
                &&& after[n] == successor(items, new, rules)
                &&& match find(items, new, rules.same) {
                    Some(m) => n == m,
                    None => n == items.len(),
                }
                &&& after.len() == if n == items.len() {
                    items.len() + 1
                } else {
                    items.len()
                }
                &&& forall|i: int| 0 <= i < items.len() && i != n ==> after[i] == items[i]
            }
        }),
{
    let after = merged_one(items, new, rules);
    lemma_find(items, new, rules.same);
    match find(items, new, rules.same) {
        Some(m) => {
            lemma_applied_is_same(items[m], new, rules);
            assert((rules.same)(after[m], new));
            lemma_found(after, new, rules.same, m);
        },
        None => {
            lemma_made_is_same(new, rules);
            assert((rules.same)(after[items.len() as int], new));
            lemma_found(after, new, rules.same, items.len() as int);
        },
    }
}

/// Merging one doesn't affect what is found by a different one.
proof fn lemma_found_after_merged_one<A, S>(items: Seq<A>, new: S, wanted: S, rules: Rules<A, S>)
    requires
        are_sound(rules),
        forall|item: A| #![trigger (rules.same)(item, new)]
            !((rules.same)(item, new) && (rules.same)(item, wanted)),
    ensures
        find(merged_one(items, new, rules), wanted, rules.same) == find(
            items,
            wanted,
            rules.same,
        ),
        find(items, wanted, rules.same) matches Some(k) ==> merged_one(items, new, rules)[k]
            == items[k],
{
    let same = rules.same;
    let after = merged_one(items, new, rules);
    lemma_merged_one(items, new, rules);
    lemma_find(items, new, same);
    lemma_find(items, wanted, same);
    let n = find(after, new, same)->0;
    lemma_find(after, new, same);
    assert(same(after[n], new));
    assert(!same(after[n], wanted));
    if n < items.len() {
        assert(same(items[n], new));
        assert(!same(items[n], wanted));
    }
    match find(items, wanted, same) {
        Some(k) => {
            assert(k != n);
            assert forall|i: int| 0 <= i < k implies !same(#[trigger] after[i], wanted) by {
                if i != n {
                    assert(after[i] == items[i]);
                }
            }
            assert(after[k] == items[k]);
            lemma_found(after, wanted, same, k);
        },
        None => {
            assert forall|i: int| 0 <= i < after.len() implies !same(
                #[trigger] after[i],
                wanted,
            ) by {
                if i != n {
                    assert(after[i] == items[i]);
                }
            }
            lemma_not_found(after, wanted, same);
        },
    }
}

/// Merging others doesn't affect what is found by a different one.
proof fn lemma_found_after_merged<A, S>(
    items: Seq<A>,
    news: Seq<S>,
    wanted: S,
    rules: Rules<A, S>,
)
    requires
        are_sound(rules),
        forall|i: int, item: A|
            #![trigger (rules.same)(item, news[i])]
            0 <= i < news.len() ==> !((rules.same)(item, news[i]) && (rules.same)(item, wanted)),
    ensures
        find(merged(items, news, rules), wanted, rules.same) == find(items, wanted, rules.same),
        find(items, wanted, rules.same) matches Some(k) ==> merged(items, news, rules)[k]
            == items[k],
    decreases news.len(),
{
    if news.len() > 0 {
        let rest = news.drop_first();
        let after = merged_one(items, news[0], rules);
        assert forall|item: A| #![trigger (rules.same)(item, news[0])] !((rules.same)(
            item,
            news[0],
        ) && (rules.same)(item, wanted)) by {}
        lemma_found_after_merged_one(items, news[0], wanted, rules);
        assert forall|i: int, item: A|
            #![trigger (rules.same)(item, rest[i])]
            0 <= i < rest.len() implies !((rules.same)(item, rest[i]) && (rules.same)(
            item,
            wanted,
        )) by {
            assert(!((rules.same)(item, news[i + 1]) && (rules.same)(item, wanted)));
        }
        lemma_found_after_merged(after, rest, wanted, rules);
    }
}

/// Merging different ones, each of them is found afterwards: where it has been
/// found before, or, if it hasn't been, beyond the items there have been, in the
/// order of the former. All the items which none of them has been found at are
/// left as they are.
pub proof fn lemma_merged_differing<A, S>(items: Seq<A>, news: Seq<S>, rules: Rules<A, S>)
    requires
        are_sound(rules),
        news_differ(news, rules.same),
    ensures
        merged(items, news, rules).len() >= items.len(),
        forall|i: int| #![trigger news[i]] 0 <= i < news.len() ==> {
            let after = merged(items, news, rules);
            &&& find(after, news[i], rules.same) matches Some(n) && {
                &&& 0 <= n < after.len()
                &&& after[n] == successor(items, news[i], rules)
                &&& match find(items, news[i], rules.same) {
                    Some(m) => n == m,
                    None => items.len() <= n,
                }
            }
        },
        forall|k: int|
            #![trigger merged(items, news, rules)[k]]
            0 <= k < items.len() && !is_wanted(items, k, news, rules.same) ==> merged(
                items,
                news,
                rules,
            )[k] == items[k],
        forall|k: int|
            items.len() <= k < merged(items, news, rules).len() ==> #[trigger] is_wanted(
                merged(items, news, rules),
                k,
                news,
                rules.same,
            ),
        forall|i: int, j: int|
            #![trigger news[i], news[j]]
            0 <= i < j < news.len() && find(items, news[i], rules.same) is None && find(
                items,
                news[j],
                rules.same,
            ) is None ==> find(merged(items, news, rules), news[i], rules.same)->0 < find(
                merged(items, news, rules),
                news[j],
                rules.same,
            )->0,
    decreases news.len(),
{
    let same = rules.same;
    if news.len() > 0 {
        let rest = news.drop_first();
        let mid = merged_one(items, news[0], rules);
        let after = merged(items, news, rules);
        assert(news_differ(rest, same)) by {
            assert forall|i: int, j: int, item: A|
                #![trigger same(item, rest[i]), same(item, rest[j])]
                0 <= i < j < rest.len() implies !(same(item, rest[i]) && same(item, rest[j])) by {
                assert(!(same(item, news[i + 1]) && same(item, news[j + 1])));
            }
        }
        lemma_merged_one(items, news[0], rules);
        lemma_merged_differing(mid, rest, rules);
        assert forall|i: int, item: A|
            #![trigger same(item, rest[i])]
            0 <= i < rest.len() implies !(same(item, rest[i]) && same(item, news[0])) by {
            assert(!(same(item, news[0]) && same(item, news[i + 1])));
        }
        lemma_found_after_merged(mid, rest, news[0], rules);
        lemma_find(after, news[0], same);
        lemma_find(items, news[0], same);
        let first = find(mid, news[0], same)->0;
        assert forall|i: int| 0 < i < news.len() implies find(mid, #[trigger] news[i], same) == find(
            items,
            news[i],
            same,
        ) && successor(mid, news[i], rules) == successor(items, news[i], rules) by {
            assert forall|item: A| #![trigger same(item, news[0])] !(same(item, news[0]) && same(
                item,
                news[i],
            )) by {
                assert(!(same(item, news[0]) && same(item, news[i])));
            }
            lemma_found_after_merged_one(items, news[0], news[i], rules);
        }
        assert forall|i: int| #![trigger news[i]] 0 <= i < news.len() implies {
            &&& find(after, news[i], same) matches Some(n) && {
                &&& 0 <= n < after.len()
                &&& after[n] == successor(items, news[i], rules)
                &&& match find(items, news[i], same) {
                    Some(m) => n == m,
                    None => items.len() <= n,
                }
            }
        } by {
            if i > 0 {
                assert(rest[i - 1] == news[i]);
            }
        }
        assert forall|k: int|
            #![trigger after[k]]
            0 <= k < items.len() && !is_wanted(items, k, news, same) implies after[k] == items[k] by {
            assert(find(items, news[0], same) != Some(k));
            assert(mid[k] == items[k]);
            if is_wanted(mid, k, rest, same) {
                let i = choose|i: int|
                    #![trigger rest[i]]
                    0 <= i < rest.len() && find(mid, rest[i], same) == Some(k);
                assert(rest[i] == news[i + 1]);
                assert(find(items, news[i + 1], same) != Some(k));
            }
        }
        assert forall|k: int| items.len() <= k < after.len() implies #[trigger] is_wanted(
            after,
            k,
            news,
            same,
        ) by {
            if k < mid.len() {
                assert(find(after, news[0], same) == Some(k));
            } else {
                assert(is_wanted(after, k, rest, same));
                let i = choose|i: int|
                    #![trigger rest[i]]
                    0 <= i < rest.len() && find(after, rest[i], same) == Some(k);
                assert(news[i + 1] == rest[i]);
            }
        }
        assert forall|i: int, j: int|
            #![trigger news[i], news[j]]
            0 <= i < j < news.len() && find(items, news[i], same) is None && find(
                items,
                news[j],
                same,
            ) is None implies find(after, news[i], same)->0 < find(after, news[j], same)->0 by {
            assert(news[j] == rest[j - 1]);
            if i > 0 {
                assert(news[i] == rest[i - 1]);
            }
        }
    }
}

/// Merging keeps items different.
pub proof fn lemma_merged_items_differ<A, S>(items: Seq<A>, news: Seq<S>, rules: Rules<A, S>)
    requires
        are_sound(rules),
        items_differ(items, rules.same),
    ensures
        items_differ(merged(items, news, rules), rules.same),
    decreases news.len(),
{
    let same = rules.same;
    if news.len() > 0 {
        let new = news[0];
        let mid = merged_one(items, new, rules);
        lemma_merged_one(items, new, rules);
        lemma_find(items, new, same);
        let n = find(mid, new, same)->0;
        lemma_find(mid, new, same);
        assert forall|i: int, j: int, s: S|
            #![trigger same(mid[i], s), same(mid[j], s)]
            0 <= i < j < mid.len() implies !(same(mid[i], s) && same(mid[j], s)) by {
            if same(mid[i], s) && same(mid[j], s) {
                assert(same(mid[n], new));
                if i == n {
                    lemma_same_news(mid[n], mid[j], new, s, rules);
                    assert(mid[j] == items[j]);
                    assert(!(same(items[n], new) && same(items[j], new)));
                } else if j == n {
                    lemma_same_news(mid[n], mid[i], new, s, rules);
                    assert(mid[i] == items[i]);
                    if n < items.len() {
                        assert(!(same(items[i], new) && same(items[n], new)));
                    }
                } else {
                    assert(mid[i] == items[i] && mid[j] == items[j]);
                    assert(same(items[i], s) && same(items[j], s));
                }
            }
        }
        lemma_merged_items_differ(mid, news.drop_first(), rules);
    }
}

/// Merging those that change nothing one by one changes nothing.
pub proof fn lemma_merged_nothing<A, S>(items: Seq<A>, news: Seq<S>, rules: Rules<A, S>)
    requires
        forall|i: int|
            0 <= i < news.len() ==> merged_one(items, #[trigger] news[i], rules) == items,
    ensures
        merged(items, news, rules) == items,
    decreases news.len(),
{
    if news.len() > 0 {
        let rest = news.drop_first();
        assert(merged_one(items, news[0], rules) == items);
        assert forall|i: int| 0 <= i < rest.len() implies merged_one(
            items,
            #[trigger] rest[i],
            rules,
        ) == items by {
            assert(rest[i] == news[i + 1]);
        }
        lemma_merged_nothing(items, rest, rules);
    }
}

/// Different items, each of which what stands at its place in the `news`
/// identifies and leaves as it is, are left as they are by all of the `news`.
pub proof fn lemma_kept_by_own<A, S>(items: Seq<A>, news: Seq<S>, rules: Rules<A, S>)
    requires
        items_differ(items, rules.same),
        news_differ(news, rules.same),
        items.len() == news.len(),
        forall|i: int| #![trigger news[i]]
            0 <= i < items.len() ==> (rules.same)(items[i], news[i]) && (rules.apply)(
                items[i],
                news[i],
            ) == items[i],
    ensures
        replaced(items, news, rules) == items,
        merged(items, news, rules) == items,
{
    let same = rules.same;
    assert forall|i: int| #![trigger news[i]] 0 <= i < items.len() implies find(
        items,
        news[i],
        same,
    ) == Some(i) by {
        lemma_find(items, news[i], same);
        let n = find(items, news[i], same)->0;
        assert(same(items[i], news[i]));
        if n < i {
            assert(!(same(items[n], news[i]) && same(items[i], news[i])));
        }
    }
    lemma_replaced_by_differing(items, news, rules);
    assert(replaced(items, news, rules) =~= items) by {
        assert forall|i: int| 0 <= i < items.len() implies replaced(items, news, rules)[i]
            == items[i] by {
            assert(find(items, news[i], same) == Some(i));
        }
    }
    assert forall|i: int| 0 <= i < news.len() implies merged_one(
        items,
        #[trigger] news[i],
        rules,
    ) == items by {
        assert(find(items, news[i], same) == Some(i));
        assert(items.update(i, items[i]) =~= items);
    }
    lemma_merged_nothing(items, news, rules);
}

/// Merging different ones the second time changes nothing, provided that it
/// does so to an item.
pub proof fn lemma_merged_twice<A, S>(
    items: Seq<A>,
    news: Seq<S>,
    after: Seq<A>,
    rules: Rules<A, S>,
    related: spec_fn(A, A) -> bool,
)
    requires
        are_sound(rules),
        news_differ(news, rules.same),
        pairwise(after, merged(items, news, rules), related),
        forall|a: A, b: A, s: S|
            #![trigger related(a, b), (rules.same)(a, s)]
            related(a, b) ==> (rules.same)(a, s) == (rules.same)(b, s),
        forall|i: int, a: A, b: A|
            #![trigger related(a, b), (rules.apply)(a, news[i])]
            0 <= i < news.len() && related(a, b) && stems_from(b, news[i], rules) ==> (
            rules.apply)(a, news[i]) == a,
    ensures
        merged(after, news, rules) == after,
{
    let same = rules.same;
    let expected = merged(items, news, rules);
    lemma_merged_differing(items, news, rules);
    assert forall|i: int| 0 <= i < news.len() implies merged_one(
        after,
        #[trigger] news[i],
        rules,
    ) == after by {
        let new = news[i];
        let n = find(expected, new, same)->0;
        lemma_find(expected, new, same);
        assert forall|k: int| 0 <= k < after.len() implies same(#[trigger] after[k], new) == same(
            expected[k],
            new,
        ) by {
            assert(related(after[k], expected[k]));
        }
        assert(same(after[n], new));
        lemma_found(after, new, same, n);
        assert(related(after[n], expected[n]));
        assert(stems_from(expected[n], new, rules)) by {
            if let Some(m) = find(items, new, same) {
                assert(expected[n] == (rules.apply)(items[m], new));
            }
        }
        assert((rules.apply)(after[n], new) == after[n]);
        assert(after.update(n, after[n]) =~= after);
    }
    lemma_merged_nothing(after, news, rules);
}

/// Newly made of different ones is what merging them into nothing gives.
pub proof fn lemma_merged_into_nothing<A, S>(done: Seq<A>, news: Seq<S>, rules: Rules<A, S>)
    requires
        are_sound(rules),
        news_differ(news, rules.same),
        forall|i: int, k: int|
            #![trigger done[k], news[i]]
            0 <= i < news.len() && 0 <= k < done.len() ==> !(rules.same)(done[k], news[i]),
    ensures
        merged(done, news, rules) == done + Seq::new(news.len(), |i: int| (rules.make)(news[i])),
    decreases news.len(),
{
    let same = rules.same;
    let goal = done + Seq::new(news.len(), |i: int| (rules.make)(news[i]));
    if news.len() == 0 {
        assert(goal =~= done);
    } else {
        let rest = news.drop_first();
        let next = done.push((rules.make)(news[0]));
        assert forall|k: int| 0 <= k < done.len() implies !same(#[trigger] done[k], news[0]) by {}
        lemma_not_found(done, news[0], same);
        assert(news_differ(rest, same)) by {
            assert forall|i: int, j: int, item: A|
                #![trigger same(item, rest[i]), same(item, rest[j])]
                0 <= i < j < rest.len() implies !(same(item, rest[i]) && same(item, rest[j])) by {
                assert(!(same(item, news[i + 1]) && same(item, news[j + 1])));
            }
        }
        assert forall|i: int, k: int|
            #![trigger next[k], rest[i]]
            0 <= i < rest.len() && 0 <= k < next.len() implies !same(next[k], rest[i]) by {
            assert(rest[i] == news[i + 1]);
            if k < done.len() {
                assert(!same(done[k], news[i + 1]));
            } else {
                let made = (rules.make)(news[0]);
                lemma_made_is_same(news[0], rules);
                assert(!(same(made, news[0]) && same(made, news[i + 1])));
            }
        }
        lemma_merged_into_nothing(next, rest, rules);
        assert(goal =~= next + Seq::new(rest.len(), |i: int| (rules.make)(rest[i])));
    }
}

/// Merging items which are good into ones which are, all of them are.
pub proof fn lemma_merged_good<A, S>(
    items: Seq<A>,
    news: Seq<S>,
    rules: Rules<A, S>,
    good: spec_fn(A) -> bool,
)
    requires
        forall|k: int| 0 <= k < items.len() ==> good(#[trigger] items[k]),
        forall|i: int|
            #![trigger news[i]]
            0 <= i < news.len() ==> good((rules.make)(news[i])),
        forall|i: int, item: A|
            #![trigger (rules.apply)(item, news[i])]
            0 <= i < news.len() && good(item) ==> good((rules.apply)(item, news[i])),
    ensures
        forall|k: int|
            0 <= k < merged(items, news, rules).len() ==> good(
                #[trigger] merged(items, news, rules)[k],
            ),
    decreases news.len(),
{
    if news.len() > 0 {
        let rest = news.drop_first();
        let mid = merged_one(items, news[0], rules);
        lemma_find(items, news[0], rules.same);
        assert(good((rules.make)(news[0])));
        assert forall|k: int| 0 <= k < mid.len() implies good(#[trigger] mid[k]) by {
            if let Some(n) = find(items, news[0], rules.same) {
                assert(good(items[n]));
                assert(good((rules.apply)(items[n], news[0])));
                assert(good(items[k]));
            } else if k < items.len() {
                assert(good(items[k]));
            }
        }
        assert forall|i: int| #![trigger rest[i]] 0 <= i < rest.len() implies good(
            (rules.make)(rest[i]),
        ) by {
            assert(rest[i] == news[i + 1]);
        }
        assert forall|i: int, item: A|
            #![trigger (rules.apply)(item, rest[i])]
            0 <= i < rest.len() && good(item) implies good((rules.apply)(item, rest[i])) by {
            assert(good((rules.apply)(item, news[i + 1])));
        }
        lemma_merged_good(mid, rest, rules, good);
        assert(merged(items, news, rules) == merged(mid, rest, rules));
        assert forall|k: int| 0 <= k < merged(items, news, rules).len() implies good(
            #[trigger] merged(items, news, rules)[k],
        ) by {
            assert(good(merged(mid, rest, rules)[k]));
        }
    } else {
        assert forall|k: int| 0 <= k < merged(items, news, rules).len() implies good(
            #[trigger] merged(items, news, rules)[k],
        ) by {
            assert(good(items[k]));
        }
    }
}

/// Different items found by different ones are each where it's identified.
pub proof fn lemma_found_where_same<A, S>(
    items: Seq<A>,
    wanted: S,
    same: spec_fn(A, S) -> bool,
    n: int,
)
    requires
        items_differ(items, same),
        0 <= n < items.len(),
        same(items[n], wanted),
    ensures
        find(items, wanted, same) == Some(n),
{
    lemma_find(items, wanted, same);
    let m = find(items, wanted, same)->0;
    if m < n {
        assert(!(same(items[m], wanted) && same(items[n], wanted)));
    }
}

/// What is left without the unwanted ones is some of the items, none of which
/// is an unwanted one, and all that is left out is.
pub proof fn lemma_without<A, S>(items: Seq<A>, unwanted: S, same: spec_fn(A, S) -> bool)
    ensures
        forall|i: int|
            0 <= i < without(items, unwanted, same).len() ==> {
                &&& !same(#[trigger] without(items, unwanted, same)[i], unwanted)
                &&& items.contains(without(items, unwanted, same)[i])
            },
        forall|i: int|
            0 <= i < items.len() && !same(#[trigger] items[i], unwanted) ==> without(
                items,
                unwanted,
                same,
            ).contains(items[i]),
        find(without(items, unwanted, same), unwanted, same) is None,
    decreases items.len(),
{
    reveal(Seq::filter);
    let left = without(items, unwanted, same);
    if items.len() > 0 {
        let fore = items.drop_last();
        let kept = without(fore, unwanted, same);
        lemma_without(fore, unwanted, same);
        assert forall|i: int| 0 <= i < left.len() implies !same(#[trigger] left[i], unwanted)
            && items.contains(left[i]) by {
            if i < kept.len() {
                assert(kept[i] == left[i]);
                let k = fore.index_of(kept[i]);
                assert(items[k] == left[i]);
            } else {
                assert(items[items.len() - 1] == left[i]);
            }
        }
        assert forall|i: int| 0 <= i < items.len() && !same(
            #[trigger] items[i],
            unwanted,
        ) implies left.contains(items[i]) by {
            if i < fore.len() {
                assert(fore[i] == items[i]);
                let k = kept.index_of(fore[i]);
                assert(left[k] == items[i]);
            } else {
                assert(left[left.len() - 1] == items[i]);
            }
        }
    }
    lemma_not_found(left, unwanted, same);
}

/// What is left of items which are apart from one another is so.
pub proof fn lemma_without_apart<A, S>(
    items: Seq<A>,
    unwanted: S,
    same: spec_fn(A, S) -> bool,
    apart: spec_fn(A, A) -> bool,
)
    requires
        forall|i: int, j: int|
            0 <= i < j < items.len() ==> apart(#[trigger] items[i], #[trigger] items[j]),
    ensures
        forall|i: int, j: int|
            #![trigger without(items, unwanted, same)[i], without(items, unwanted, same)[j]]
            0 <= i < j < without(items, unwanted, same).len() ==> apart(
                without(items, unwanted, same)[i],
                without(items, unwanted, same)[j],
            ),
    decreases items.len(),
{
    reveal(Seq::filter);
    let left = without(items, unwanted, same);
    if items.len() > 0 {
        let fore = items.drop_last();
        let kept = without(fore, unwanted, same);
        assert forall|i: int, j: int| 0 <= i < j < fore.len() implies apart(
            #[trigger] fore[i],
            #[trigger] fore[j],
        ) by {
            assert(apart(items[i], items[j]));
        }
        lemma_without_apart(fore, unwanted, same, apart);
        lemma_without(fore, unwanted, same);
        assert forall|i: int, j: int|
            #![trigger left[i], left[j]]
            0 <= i < j < left.len() implies apart(left[i], left[j]) by {
            if j < kept.len() {
                assert(kept[i] == left[i] && kept[j] == left[j]);
            } else {
                assert(kept[i] == left[i]);
                let k = fore.index_of(kept[i]);
                assert(items[k] == left[i]);
                assert(apart(items[k], items[items.len() - 1]));
            }
        }
    }
}

/// Merging keeps, at each place, what bringing an item in line keeps of it.
proof fn lemma_merged_keeps<A, S>(
    items: Seq<A>,
    news: Seq<S>,
    rules: Rules<A, S>,
    kept: spec_fn(A, A) -> bool,
    n: int,
)
    requires
        0 <= n < items.len(),
        forall|a: A| #[trigger] kept(a, a),
        forall|a: A, b: A, c: A| #[trigger] kept(a, b) && #[trigger] kept(b, c) ==> kept(a, c),
        forall|i: int, a: A|
            #![trigger (rules.same)(a, news[i])]
            0 <= i < news.len() && (rules.same)(a, news[i]) ==> kept(
                a,
                (rules.apply)(a, news[i]),
            ),
    ensures
        n < merged(items, news, rules).len(),
        kept(items[n], merged(items, news, rules)[n]),
    decreases news.len(),
{
    assert(kept(items[n], items[n]));
    if news.len() > 0 {
        let rest = news.drop_first();
        let mid = merged_one(items, news[0], rules);
        lemma_find(items, news[0], rules.same);
        assert(kept(items[n], mid[n])) by {
            if find(items, news[0], rules.same) == Some(n) {
                assert((rules.same)(items[n], news[0]));
            }
        }
        assert forall|i: int, a: A|
            #![trigger (rules.same)(a, rest[i])]
            0 <= i < rest.len() && (rules.same)(a, rest[i]) implies kept(
            a,
            (rules.apply)(a, rest[i]),
        ) by {
            assert((rules.same)(a, news[i + 1]));
        }
        lemma_merged_keeps(mid, rest, rules, kept, n);
        assert(kept(mid[n], merged(mid, rest, rules)[n]));
    }
}

/// Replacing different items by different ones, or merging whatever ones into
/// the former, an item identified alike to an earlier one keeps what bringing an
/// item in line keeps of it.
pub proof fn lemma_kept<A, S>(
    olds: Seq<A>,
    news: Seq<S>,
    rules: Rules<A, S>,
    replace: bool,
    n: int,
    m: int,
    ident: S,
    kept: spec_fn(A, A) -> bool,
)
    requires
        are_sound(rules),
        items_differ(olds, rules.same),
        replace ==> news_differ(news, rules.same),
        0 <= n < olds.len(),
        0 <= m < (if replace {
            replaced(olds, news, rules)
        } else {
            merged(olds, news, rules)
        }).len(),
        (rules.same)(olds[n], ident),
        (rules.same)(
            (if replace {
                replaced(olds, news, rules)
            } else {
                merged(olds, news, rules)
            })[m],
            ident,
        ),
        forall|a: A| #[trigger] kept(a, a),
        forall|a: A, b: A, c: A| #[trigger] kept(a, b) && #[trigger] kept(b, c) ==> kept(a, c),
        forall|i: int, a: A|
            #![trigger (rules.same)(a, news[i])]
            0 <= i < news.len() && (rules.same)(a, news[i]) ==> kept(
                a,
                (rules.apply)(a, news[i]),
            ),
        forall|a: A, b: A| #[trigger]
            kept(a, b) && (rules.same)(a, ident) ==> (rules.same)(b, ident),
    ensures
        kept(
            olds[n],
            (if replace {
                replaced(olds, news, rules)
            } else {
                merged(olds, news, rules)
            })[m],
        ),
{
    let same = rules.same;
    if replace {
        let made = replaced(olds, news, rules);
        lemma_replaced_by_differing(olds, news, rules);
        assert(made[m] == successor(olds, news[m], rules));
        lemma_find(olds, news[m], same);
        match find(olds, news[m], same) {
            Some(k) => lemma_applied_is_same(olds[k], news[m], rules),
            None => lemma_made_is_same(news[m], rules),
        }
        lemma_same_news(made[m], olds[n], news[m], ident, rules);
        lemma_found_where_same(olds, news[m], same, n);
        assert(made[m] == (rules.apply)(olds[n], news[m]));
    } else {
        let made = merged(olds, news, rules);
        lemma_merged_items_differ(olds, news, rules);
        lemma_merged_keeps(olds, news, rules, kept, n);
        assert(same(made[n], ident));
        if n < m {
            assert(!(same(made[n], ident) && same(made[m], ident)));
        } else if m < n {
            assert(!(same(made[m], ident) && same(made[n], ident)));
        }
    }
}

/// Merging leaves an item that none of the `news` identifies as it is.
pub proof fn lemma_merged_untouched<A, S>(
    items: Seq<A>,
    news: Seq<S>,
    rules: Rules<A, S>,
    n: int,
)
    requires
        0 <= n < items.len(),
        forall|i: int| 0 <= i < news.len() ==> !(rules.same)(items[n], #[trigger] news[i]),
    ensures
        n < merged(items, news, rules).len(),
        merged(items, news, rules)[n] == items[n],
    decreases news.len(),
{
    if news.len() > 0 {
        let rest = news.drop_first();
        let mid = merged_one(items, news[0], rules);
        lemma_find(items, news[0], rules.same);
        assert(!(rules.same)(items[n], news[0]));
        assert(mid[n] == items[n]);
        assert forall|i: int| 0 <= i < rest.len() implies !(rules.same)(
            mid[n],
            #[trigger] rest[i],
        ) by {
            assert(rest[i] == news[i + 1]);
        }
        lemma_merged_untouched(mid, rest, rules, n);
    }
}

/// Merging two lists one after another is merging all of them.
proof fn lemma_merged_in_parts<A, S>(
    items: Seq<A>,
    first: Seq<S>,
    last: Seq<S>,
    rules: Rules<A, S>,
)
    ensures
        merged(items, first + last, rules) == merged(merged(items, first, rules), last, rules),
    decreases first.len(),
{
    let all = first + last;
    if first.len() == 0 {
        assert(all =~= last);
    } else {
        assert(all.drop_first() =~= first.drop_first() + last);
        lemma_merged_in_parts(merged_one(items, first[0], rules), first.drop_first(), last, rules);
    }
}

/// Merging never leaves less items.
proof fn lemma_merged_len<A, S>(items: Seq<A>, news: Seq<S>, rules: Rules<A, S>)
    ensures
        merged(items, news, rules).len() >= items.len(),
    decreases news.len(),
{
    if news.len() > 0 {
        lemma_find(items, news[0], rules.same);
        lemma_merged_len(merged_one(items, news[0], rules), news.drop_first(), rules);
    }
}

/// Merging, one that identifies nothing what others do is found afterwards: where
/// it has been found before, or, if it hasn't been, beyond the items there have
/// been.
pub proof fn lemma_merged_apart<A, S>(items: Seq<A>, news: Seq<S>, rules: Rules<A, S>, n: int)
    requires
        are_sound(rules),
        0 <= n < news.len(),
        forall|i: int, item: A|
            #![trigger (rules.same)(item, news[i])]
            0 <= i < news.len() && i != n ==> !((rules.same)(item, news[i]) && (rules.same)(
                item,
                news[n],
            )),
    ensures
        find(merged(items, news, rules), news[n], rules.same) matches Some(k) && {
            &&& 0 <= k < merged(items, news, rules).len()
            &&& merged(items, news, rules)[k] == successor(items, news[n], rules)
            &&& match find(items, news[n], rules.same) {
                Some(m) => k == m,
                None => items.len() <= k,
            }
        },
{
    let same = rules.same;
    let new = news[n];
    let (fore, rest) = (news.take(n), news.skip(n + 1));
    let mid = merged(items, fore, rules);
    let next = merged_one(mid, new, rules);
    lemma_merged_in_parts(items, fore, news.skip(n), rules);
    assert(fore + news.skip(n) =~= news);
    assert(news.skip(n)[0] == new);
    assert(news.skip(n).drop_first() =~= rest);
    assert(merged(items, news, rules) == merged(next, rest, rules));
    assert forall|i: int, item: A| #![trigger same(item, fore[i])]
        0 <= i < fore.len() implies !(same(item, fore[i]) && same(item, new)) by {
        assert(!(same(item, news[i]) && same(item, new)));
    }
    assert forall|i: int, item: A| #![trigger same(item, rest[i])]
        0 <= i < rest.len() implies !(same(item, rest[i]) && same(item, new)) by {
        assert(!(same(item, news[n + 1 + i]) && same(item, new)));
    }
    lemma_found_after_merged(items, fore, new, rules);
    lemma_merged_len(items, fore, rules);
    lemma_merged_one(mid, new, rules);
    lemma_found_after_merged(next, rest, new, rules);
    lemma_find(merged(items, news, rules), new, same);
    lemma_find(items, new, same);
}

/// Those of the `news` that none of the `items` is identified by.
pub open spec fn unknown<A, S>(items: Seq<A>, news: Seq<S>, same: spec_fn(A, S) -> bool) -> Seq<S> {
    news.filter(|new: S| find(items, new, same) is None)
}

/// Telling items apart alike leaves the same of them.
pub proof fn lemma_filtered_alike<S>(items: Seq<S>, p: spec_fn(S) -> bool, q: spec_fn(S) -> bool)
    requires
        forall|i: int| 0 <= i < items.len() ==> p(#[trigger] items[i]) == q(items[i]),
    ensures
        items.filter(p) == items.filter(q),
    decreases items.len(),
{
    reveal(Seq::filter);
    if items.len() > 0 {
        let fore = items.drop_last();
        assert forall|i: int| 0 <= i < fore.len() implies p(#[trigger] fore[i]) == q(fore[i]) by {
            assert(fore[i] == items[i]);
        }
        lemma_filtered_alike(fore, p, q);
        assert(p(items[items.len() - 1]) == q(items[items.len() - 1]));
    }
}

/// Merging different ones, what is added beyond the items there have been is
/// exactly what is newly made of those that identify none of the latter, in the
/// order of them.
pub proof fn lemma_merged_added<A, S>(items: Seq<A>, news: Seq<S>, rules: Rules<A, S>)
    requires
        are_sound(rules),
        news_differ(news, rules.same),
    ensures
        merged(items, news, rules).len() == items.len() + unknown(items, news, rules.same).len(),
        merged(items, news, rules).skip(items.len() as int) == unknown(
            items,
            news,
            rules.same,
        ).map_values(rules.make),
    decreases news.len(),
{
    let same = rules.same;
    let added = unknown(items, news, same).map_values(rules.make);
    if news.len() == 0 {
        reveal(Seq::filter);
        assert(items.skip(items.len() as int) =~= added);
    } else {
        let (first, rest) = (news[0], news.drop_first());
        let mid = merged_one(items, first, rules);
        let after = merged(items, news, rules);
        let p = |new: S| find(items, new, same) is None;
        let q = |new: S| find(mid, new, same) is None;
        assert(news_differ(rest, same)) by {
            assert forall|i: int, j: int, item: A|
                #![trigger same(item, rest[i]), same(item, rest[j])]
                0 <= i < j < rest.len() implies !(same(item, rest[i]) && same(item, rest[j])) by {
                assert(!(same(item, news[i + 1]) && same(item, news[j + 1])));
            }
        }
        lemma_find(items, first, same);
        lemma_merged_one(items, first, rules);
        lemma_merged_added(mid, rest, rules);
        assert forall|i: int| 0 <= i < rest.len() implies p(#[trigger] rest[i]) == q(rest[i]) by {
            assert forall|item: A| #![trigger same(item, first)] !(same(item, first) && same(
                item,
                rest[i],
            )) by {
                assert(!(same(item, news[0]) && same(item, news[i + 1])));
            }
            lemma_found_after_merged_one(items, first, rest[i], rules);
        }
        lemma_filtered_alike(rest, p, q);
        Seq::filter_distributes_over_add(seq![first], rest, p);
        assert(seq![first] + rest =~= news);
        assert(seq![first].filter(p) =~= if p(first) {
            seq![first]
        } else {
            seq![]
        }) by {
            reveal_with_fuel(Seq::filter, 2);
            assert(seq![first].drop_last() =~= seq![]);
        }
        assert(unknown(items, news, same) == seq![first].filter(p) + rest.filter(p));
        assert forall|i: int, item: A|
            #![trigger same(item, rest[i])]
            0 <= i < rest.len() implies !(same(item, rest[i]) && same(item, first)) by {
            assert(!(same(item, news[0]) && same(item, news[i + 1])));
        }
        lemma_found_after_merged(mid, rest, first, rules);
        assert(after == merged(mid, rest, rules));
        if p(first) {
            let n = items.len() as int;
            assert(after[n] == (rules.make)(first));
            assert(after.skip(n) =~= seq![after[n]] + after.skip(n + 1));
            assert(added =~= seq![(rules.make)(first)] + rest.filter(p).map_values(rules.make));
        } else {
            assert(mid.len() == items.len());
            assert(added =~= rest.filter(p).map_values(rules.make));
        }
    }
}

/// Nothing specified, nothing is there once it's replaced, and nothing changes
/// once it's merged.
pub proof fn law_nothing_specified<A, S>(items: Seq<A>, rules: Rules<A, S>)
    ensures
        replaced(items, Seq::<S>::empty(), rules).len() == 0,
        merged(items, Seq::<S>::empty(), rules) == items,
{
}

/// The first one specified, if it identifies an item, brings the first such item
/// in line. Once replaced, the item is taken from there, and the last one takes
/// its place. Once merged, it stands where it is. The others specified follow.
pub proof fn law_specified_next<A, S>(
    items: Seq<A>,
    n: int,
    new: S,
    news: Seq<S>,
    rules: Rules<A, S>,
)
    requires
        0 <= n < items.len(),
        (rules.same)(items[n], new),
        forall|i: int| 0 <= i < n ==> !(rules.same)(#[trigger] items[i], new),
    ensures
        replaced(items, seq![new] + news, rules) == seq![(rules.apply)(items[n], new)] + replaced(
            items.update(n, items[items.len() - 1]).subrange(0, items.len() - 1),
            news,
            rules,
        ),
        merged(items, seq![new] + news, rules) == merged(
            items.update(n, (rules.apply)(items[n], new)),
            news,
            rules,
        ),
{
    let all = seq![new] + news;
    assert(all[0] == new);
    assert(all.drop_first() =~= news);
    lemma_found(items, new, rules.same, n);
    assert(swap_removed(items, n) =~= items.update(n, items[items.len() - 1]).subrange(
        0,
        items.len() - 1,
    ));
}

/// The first one specified, if it identifies no item, is newly made. Once
/// replaced, it stands first. Once merged, it stands beyond the others. The others
/// specified follow.
pub proof fn law_specified_anew<A, S>(items: Seq<A>, new: S, news: Seq<S>, rules: Rules<A, S>)
    requires
        forall|i: int| 0 <= i < items.len() ==> !(rules.same)(#[trigger] items[i], new),
    ensures
        replaced(items, seq![new] + news, rules) == seq![(rules.make)(new)] + replaced(
            items,
            news,
            rules,
        ),
        merged(items, seq![new] + news, rules) == merged(
            items.push((rules.make)(new)),
            news,
            rules,
        ),
{
    let all = seq![new] + news;
    assert(all[0] == new);
    assert(all.drop_first() =~= news);
    lemma_not_found(items, new, rules.same);
}

/// Merging what is specified in two parts, one after another, is merging all of
/// it.
pub proof fn law_merging_in_parts<A, S>(
    items: Seq<A>,
    first: Seq<S>,
    last: Seq<S>,
    rules: Rules<A, S>,
)
    ensures
        merged(items, first + last, rules) == merged(merged(items, first, rules), last, rules),
{
    lemma_merged_in_parts(items, first, last, rules);
}

/// What is left out is exactly what is identified by the unwanted one: an item
/// added to the end is left, or isn't, whatever is left of those before it.
pub proof fn law_left_out<A, S>(items: Seq<A>, item: A, unwanted: S, same: spec_fn(A, S) -> bool)
    ensures
        without(Seq::<A>::empty(), unwanted, same).len() == 0,
        same(item, unwanted) ==> without(items.push(item), unwanted, same) == without(
            items,
            unwanted,
            same,
        ),
        !same(item, unwanted) ==> without(items.push(item), unwanted, same) == without(
            items,
            unwanted,
            same,
        ).push(item),
{
    reveal(Seq::filter);
    assert(items.push(item).drop_last() =~= items);
}

/// There is a clash exactly when two of the items are equal, and it's the first
/// one which is equal to an earlier one.
pub proof fn law_first_clash<A>(items: Seq<A>)
    ensures
        match first_clash(Set::empty(), items) {
            None => forall|i: int, j: int|
                0 <= i < j < items.len() ==> #[trigger] items[i] != #[trigger] items[j],
            Some(item) => exists|i: int, j: int|
                0 <= i < j < items.len() && #[trigger] items[i] == item && #[trigger] items[j]
                    == item && forall|k: int, l: int|
                    0 <= k < l < j ==> #[trigger] items[k] != #[trigger] items[l],
        },
{
    lemma_no_clash(Set::empty(), items);
    if first_clash(Set::empty(), items) is Some {
        assert(items.take(items.len() as int) =~= items);
        let n = lemma_clash_place(items, items.len() as int);
        let met = items.take(n);
        lemma_no_clash(Set::empty(), met);
        lemma_next_clash(items, n);
        let i = met.index_of(items[n]);
        assert(items[i] == items[n]);
        assert forall|k: int, l: int| 0 <= k < l < n implies #[trigger] items[k]
            != #[trigger] items[l] by {
            assert(met[k] != met[l]);
        }
    }
}

/// Place of the first of the items which is equal to an earlier one.
proof fn lemma_clash_place<A>(items: Seq<A>, len: int) -> (n: int)
    requires
        0 <= len <= items.len(),
        first_clash(Set::empty(), items.take(len)) is Some,
    ensures
        0 <= n < len,
        first_clash(Set::empty(), items.take(n)) is None,
        items.take(n).contains(items[n]),
    decreases len,
{
    if len == 0 {
        assert(items.take(0).len() == 0);
        0
    } else if first_clash(Set::empty(), items.take(len - 1)) is Some {
        lemma_clash_place(items, len - 1)
    } else {
        lemma_next_clash(items, len - 1);
        len - 1
    }
}

/// Items are related exactly when there are as many of them, and each one is
/// related to the one at its place.
pub proof fn law_related<A>(a: Seq<A>, b: Seq<A>, related: spec_fn(A, A) -> bool)
    ensures
        pairwise(a, b, related) <==> a.len() == b.len() && forall|i: int|
            0 <= i < a.len() ==> related(#[trigger] a[i], b[i]),
{
}

} // verus!
