//! Additional sources of outputs.

use vstd::prelude::*;

use crate::addresses::{MixinSrcUrl, UrlView};
use crate::ids::{Id, MixinId};
use crate::lists::{
    find, lemma_found, lemma_merged_next, lemma_not_found, lemma_pairwise_push,
    lemma_pairwise_swap_removed, lemma_pairwise_update, lemma_replaced_next, merged, merged_one,
    pairwise, replaced, swap_removed, Rules,
};
use crate::measures::{Delay, Status, Volume};
use crate::spec::v1;

verus! {

/// Content of a [`Mixin`].
pub struct MixinView {
    pub id: Id,
    pub src: UrlView,
    pub volume: u16,
    pub delay: nat,
    pub status: Status,
}

impl MixinView {
    /// [`Mixin`] newly made of the given [`v1::Mixin`].
    pub open spec fn fresh(new: v1::MixinView) -> Self {
        MixinView {
            id: Id::Fresh,
            src: new.src,
            volume: new.volume,
            delay: new.delay,
            status: Status::Offline,
        }
    }

    /// This [`Mixin`] with the given [`v1::Mixin`] applied.
    pub open spec fn applied(self, new: v1::MixinView) -> Self {
        MixinView { src: new.src, volume: new.volume, delay: new.delay, ..self }
    }

    /// This [`Mixin`] exported.
    pub open spec fn exported(self) -> v1::MixinView {
        v1::MixinView { src: self.src, volume: self.volume, delay: self.delay }
    }

    /// Tells whether this [`Mixin`] is the `expected` one.
    pub open spec fn realizes(self, expected: Self) -> bool {
        &&& self.id.realizes(expected.id)
        &&& self == MixinView { id: self.id, ..expected }
    }
}

/// [`Mixin`]s go by their sources.
pub open spec fn mixin_rules() -> Rules<MixinView, v1::MixinView> {
    Rules {
        same: |mixin: MixinView, new: v1::MixinView| mixin.src.text == new.src.text,
        apply: |mixin: MixinView, new: v1::MixinView| mixin.applied(new),
        make: |new: v1::MixinView| MixinView::fresh(new),
    }
}

/// Tells whether all [`Mixin`]s have different sources.
pub open spec fn mixins_differ(mixins: Seq<MixinView>) -> bool {
    forall|i: int, j: int|
        0 <= i < j < mixins.len() ==> (#[trigger] mixins[i]).src.text != (
        #[trigger] mixins[j]).src.text
}

/// Contents of [`Mixin`]s.
pub open spec fn mixins_view(mixins: Seq<Mixin>) -> Seq<MixinView> {
    Seq::new(mixins.len(), |i: int| mixins[i]@)
}

/// [`MixinView::realizes`] as a relation.
pub open spec fn mixin_realizes() -> spec_fn(MixinView, MixinView) -> bool {
    |mixin: MixinView, expected: MixinView| mixin.realizes(expected)
}

/// Tells whether [`Mixin`]s are the `expected` ones.
pub open spec fn mixins_realize(mixins: Seq<MixinView>, expected: Seq<MixinView>) -> bool {
    pairwise(mixins, expected, mixin_realizes())
}

/// [`Mixin`]s exported.
pub open spec fn mixins_exported(mixins: Seq<MixinView>) -> Seq<v1::MixinView> {
    Seq::new(mixins.len(), |i: int| mixins[i].exported())
}

/// Additional source for an `Output` to be mixed with before re-streaming to
/// the destination.
#[derive(Clone, Debug, PartialEq, Eq)]
pub struct Mixin {
    /// Unique ID of this `Mixin`.
    ///
    /// Once assigned, it never changes.
    pub id: MixinId,
    /// URL of the source to be mixed with an `Output`.
    ///
    /// At the moment, only [TeamSpeak] is supported.
    ///
    /// [TeamSpeak]: https://teamspeak.com
    pub src: MixinSrcUrl,
    /// Volume rate of this `Mixin`'s audio tracks to mix them with.
    pub volume: Volume,
    /// Delay that this `Mixin` should wait before being mixed with an `Output`.
    ///
    /// Very useful to fix de-synchronization issues and correct timings between
    /// a `Mixin` and its `Output`.
    pub delay: Delay,
    /// `Status` of this `Mixin` indicating whether it provides an actual media
    /// stream to be mixed with its `Output`.
    pub status: Status,
}

impl Mixin {
    /// Content of this [`Mixin`].
    pub open spec fn view(&self) -> MixinView {
        MixinView {
            id: Id::Known(self.id.0),
            src: self.src@,
            volume: self.volume@,
            delay: self.delay@,
            status: self.status,
        }
    }

    /// Creates a new [`Mixin`] out of the given [`v1::Mixin`].
    #[must_use]
    pub fn new(spec: v1::Mixin) -> (made: Self)
        ensures
            made@.realizes(MixinView::fresh(spec@)),
            made.src == spec.src,
            made.volume == spec.volume,
            made.delay == spec.delay,
            made.status == Status::Offline,
    {
        Self::with_id(MixinId::random(), spec)
    }

    /// Creates a [`Mixin`] with the given ID out of the given [`v1::Mixin`].
    #[must_use]
    pub fn with_id(id: MixinId, spec: v1::Mixin) -> (made: Self)
        ensures
            made@ == (MixinView { id: Id::Known(id.0), ..MixinView::fresh(spec@) }),
            made.id == id,
            made.src == spec.src,
            made.volume == spec.volume,
            made.delay == spec.delay,
            made.status == Status::Offline,
    {
        Self {
            id,
            src: spec.src,
            volume: spec.volume,
            delay: spec.delay,
            status: Status::Offline,
        }
    }

    /// Applies the given [`v1::Mixin`] to this [`Mixin`].
    pub fn apply(&mut self, new: v1::Mixin)
        ensures
            final(self)@ == old(self)@.applied(new@),
            final(self).src == new.src,
            final(self).volume == new.volume,
            final(self).delay == new.delay,
            final(self).id == old(self).id,
            final(self).status == old(self).status,
    {
        self.src = new.src;
        self.volume = new.volume;
        self.delay = new.delay;
    }

    /// Exports this [`Mixin`] as a [`v1::Mixin`].
    #[must_use]
    pub fn export(&self) -> (spec: v1::Mixin)
        ensures
            spec@ == self@.exported(),
            spec.src@ == self.src@,
            spec.volume@ == self.volume@,
            spec.delay@ == self.delay@,
    {
        v1::Mixin { src: self.src.clone(), volume: self.volume, delay: self.delay }
    }
}

/// Contents of [`Mixin`]s newly made of the given [`v1::Mixin`]s.
pub open spec fn mixins_fresh(news: Seq<v1::MixinView>) -> Seq<MixinView> {
    Seq::new(news.len(), |i: int| MixinView::fresh(news[i]))
}

/// Existing [`Mixin`]s are the ones they are expected to be.
pub(crate) proof fn lemma_mixins_realize_themselves(mixins: Seq<Mixin>)
    ensures
        mixins_realize(mixins_view(mixins), mixins_view(mixins)),
{
}

/// Creates [`Mixin`]s out of the `news`.
pub(crate) fn make_mixins(news: Vec<v1::Mixin>) -> (made: Vec<Mixin>)
    ensures
        mixins_realize(mixins_view(made@), mixins_fresh(v1::mixins_view(news@))),
{
    let ghost given = news@;
    let ghost goal = mixins_fresh(v1::mixins_view(given));
    let mut made: Vec<Mixin> = Vec::with_capacity(news.len());
    for new in it: news
        invariant
            it.seq() == given,
            goal == mixins_fresh(v1::mixins_view(given)),
            mixins_realize(mixins_view(made@), goal.take(it.index())),
    {
        let ghost n = it.index();
        let ghost ready = mixins_view(made@);
        let item = Mixin::new(new);
        made.push(item);
        proof {
            lemma_pairwise_push(ready, goal.take(n), item@, goal[n], mixin_realizes());
            assert(mixins_view(made@) == ready.push(item@));
            assert(goal.take(n).push(goal[n]) == goal.take(n + 1));
        }
    }
    assert(goal.take(goal.len() as int) == goal);
    made
}

/// Exports the `mixins`.
pub(crate) fn export_mixins(mixins: &Vec<Mixin>) -> (specs: Vec<v1::Mixin>)
    ensures
        v1::mixins_view(specs@) == mixins_exported(mixins_view(mixins@)),
        specs@.len() == mixins@.len(),
{
    let mut specs: Vec<v1::Mixin> = Vec::with_capacity(mixins.len());
    let mut n: usize = 0;
    while n < mixins.len()
        invariant
            n <= mixins@.len(),
            specs@.len() == n,
            forall|i: int| 0 <= i < n ==> #[trigger] specs@[i]@ == mixins@[i]@.exported(),
        decreases mixins@.len() - n,
    {
        specs.push(mixins[n].export());
        n = n + 1;
    }
    assert(v1::mixins_view(specs@) =~= mixins_exported(mixins_view(mixins@)));
    specs
}

/// Position of the first of the `mixins` with the given source.
fn find_mixin(mixins: &Vec<Mixin>, src: &MixinSrcUrl) -> (found: Option<usize>)
    ensures
        match found {
            Some(n) => {
                &&& n < mixins@.len()
                &&& mixins@[n as int]@.src.text == src@.text
                &&& forall|i: int| 0 <= i < n ==> #[trigger] mixins@[i]@.src.text != src@.text
            },
            None => forall|i: int|
                0 <= i < mixins@.len() ==> #[trigger] mixins@[i]@.src.text != src@.text,
        },
{
    let mut n: usize = 0;
    while n < mixins.len()
        invariant
            n <= mixins@.len(),
            forall|i: int| 0 <= i < n ==> #[trigger] mixins@[i]@.src.text != src@.text,
        decreases mixins@.len() - n,
    {
        if mixins[n].src == *src {
            return Some(n);
        }
        n = n + 1;
    }
    None
}

/// Replaces the `olds` by the `news`.
pub(crate) fn replace_mixins(
    olds: Vec<Mixin>,
    news: Vec<v1::Mixin>,
    Ghost(expected): Ghost<Seq<MixinView>>,
) -> (made: Vec<Mixin>)
    requires
        mixins_realize(mixins_view(olds@), expected),
    ensures
        mixins_realize(
            mixins_view(made@),
            replaced(expected, v1::mixins_view(news@), mixin_rules()),
        ),
{
    let ghost given = news@;
    let ghost specs = v1::mixins_view(given);
    let ghost goal = replaced(expected, specs, mixin_rules());
    let mut olds = olds;
    let mut made: Vec<Mixin> = Vec::with_capacity(news.len());
    let ghost mut left = expected;
    let ghost mut done: Seq<MixinView> = seq![];
    proof {
        assert(specs.skip(0) == specs);
        assert(done + goal == goal);
    }
    for new in it: news
        invariant
            it.seq() == given,
            specs == v1::mixins_view(given),
            mixins_realize(mixins_view(olds@), left),
            mixins_realize(mixins_view(made@), done),
            done + replaced(left, specs.skip(it.index()), mixin_rules()) == goal,
    {
        let ghost spec = new@;
        let ghost had = olds@;
        let ghost ready = mixins_view(made@);
        let found = find_mixin(&olds, &new.src);
        proof {
            lemma_mixin_found(had, left, spec, found);
            lemma_replaced_next(done, left, specs, it.index(), mixin_rules());
        }
        let next = match found {
            Some(n) => {
                let mut old = olds.swap_remove(n);
                old.apply(new);
                proof {
                    lemma_pairwise_swap_removed(
                        mixins_view(had),
                        left,
                        n as int,
                        mixin_realizes(),
                    );
                    assert(mixins_view(olds@) == swap_removed(mixins_view(had), n as int));
                    done = done.push(left[n as int].applied(spec));
                    left = swap_removed(left, n as int);
                }
                old
            },
            None => {
                proof {
                    done = done.push(MixinView::fresh(spec));
                }
                Mixin::new(new)
            },
        };
        made.push(next);
        proof {
            lemma_pairwise_push(ready, done.drop_last(), next@, done.last(), mixin_realizes());
            assert(mixins_view(made@) == ready.push(next@));
            assert(done == done.drop_last().push(done.last()));
        }
    }
    proof {
        assert(specs.skip(specs.len() as int).len() == 0);
        assert(done + replaced(left, specs.skip(specs.len() as int), mixin_rules()) == done);
    }
    made
}

/// Merges the `news` into the `mixins`.
pub(crate) fn merge_mixins(
    mixins: &mut Vec<Mixin>,
    news: Vec<v1::Mixin>,
    Ghost(expected): Ghost<Seq<MixinView>>,
)
    requires
        mixins_realize(mixins_view(old(mixins)@), expected),
    ensures
        mixins_realize(
            mixins_view(final(mixins)@),
            merged(expected, v1::mixins_view(news@), mixin_rules()),
        ),
{
    let ghost given = news@;
    let ghost specs = v1::mixins_view(given);
    let ghost goal = merged(expected, specs, mixin_rules());
    let ghost mut done = expected;
    assert(specs.skip(0) == specs);
    for new in it: news
        invariant
            it.seq() == given,
            specs == v1::mixins_view(given),
            mixins_realize(mixins_view(mixins@), done),
            merged(done, specs.skip(it.index()), mixin_rules()) == goal,
    {
        let ghost spec = new@;
        let ghost had = mixins@;
        let found = find_mixin(mixins, &new.src);
        proof {
            lemma_mixin_found(had, done, spec, found);
            lemma_merged_next(done, specs, it.index(), mixin_rules());
        }
        match found {
            Some(n) => {
                mixins[n].apply(new);
                proof {
                    let item = had[n as int]@.applied(spec);
                    lemma_pairwise_update(
                        mixins_view(had),
                        done,
                        n as int,
                        item,
                        done[n as int].applied(spec),
                        mixin_realizes(),
                    );
                    assert(mixins_view(mixins@) == mixins_view(had).update(n as int, item));
                }
            },
            None => {
                let item = Mixin::new(new);
                mixins.push(item);
                proof {
                    lemma_pairwise_push(
                        mixins_view(had),
                        done,
                        item@,
                        MixinView::fresh(spec),
                        mixin_realizes(),
                    );
                    assert(mixins_view(mixins@) == mixins_view(had).push(item@));
                }
            },
        }
        proof {
            done = merged_one(done, spec, mixin_rules());
        }
    }
    assert(specs.skip(specs.len() as int).len() == 0);
}

/// [`Mixin`]s are found alike to the expected ones.
proof fn lemma_mixin_found(
    mixins: Seq<Mixin>,
    expected: Seq<MixinView>,
    spec: v1::MixinView,
    found: Option<usize>,
)
    requires
        mixins_realize(mixins_view(mixins), expected),
        match found {
            Some(n) => {
                &&& n < mixins.len()
                &&& mixins[n as int]@.src.text == spec.src.text
                &&& forall|i: int| 0 <= i < n ==> #[trigger] mixins[i]@.src.text != spec.src.text
            },
            None => forall|i: int|
                0 <= i < mixins.len() ==> #[trigger] mixins[i]@.src.text != spec.src.text,
        },
    ensures
        match found {
            Some(n) => {
                &&& find(expected, spec, mixin_rules().same) == Some(n as int)
                &&& mixins[n as int]@.realizes(expected[n as int])
            },
            None => find(expected, spec, mixin_rules().same) is None,
        },
{
    assert forall|i: int|
        0 <= i < mixins.len() implies (#[trigger] expected[i]).src.text == mixins[i]@.src.text by {
        assert(mixin_realizes()(mixins_view(mixins)[i], expected[i]));
    }
    match found {
        Some(n) => {
            assert(mixin_realizes()(mixins_view(mixins)[n as int], expected[n as int]));
            lemma_found(expected, spec, mixin_rules().same, n as int);
        },
        None => lemma_not_found(expected, spec, mixin_rules().same),
    }
}

/// Tells whether a [`Mixin`] has the given ID.
pub open spec fn mixin_has_id() -> spec_fn(MixinView, MixinId) -> bool {
    |mixin: MixinView, id: MixinId| mixin.id == Id::Known(id.0)
}

/// Position of the first of the `mixins` with the given ID.
pub open spec fn mixin_position(mixins: Seq<MixinView>, id: MixinId) -> Option<int> {
    find(mixins, id, mixin_has_id())
}

/// Finds the first of the `mixins` with the given ID.
pub(crate) fn position_of_mixin(mixins: &Vec<Mixin>, id: MixinId) -> (found: Option<usize>)
    ensures
        match found {
            Some(n) => {
                &&& n < mixins@.len()
                &&& mixin_position(mixins_view(mixins@), id) == Some(n as int)
            },
            None => mixin_position(mixins_view(mixins@), id) is None,
        },
{
    let ghost views = mixins_view(mixins@);
    let mut n: usize = 0;
    while n < mixins.len()
        invariant
            n <= mixins@.len(),
            views == mixins_view(mixins@),
            forall|i: int| 0 <= i < n ==> !mixin_has_id()(#[trigger] views[i], id),
        decreases mixins@.len() - n,
    {
        if mixins[n].id == id {
            proof {
                lemma_found(views, id, mixin_has_id(), n as int);
            }
            return Some(n);
        }
        n = n + 1;
    }
    proof {
        lemma_not_found(views, id, mixin_has_id());
    }
    None
}

} // verus!
