//! Re-streams of live streams.

use vstd::prelude::*;

use crate::ids::{Id, RestreamId};
use crate::laws::exports::law_applied_input_exports_spec;
use crate::lists::{
    find, lemma_find, lemma_found, lemma_merged_grows, lemma_merged_next, lemma_not_found,
    lemma_pairwise_push, lemma_pairwise_swap_removed, lemma_pairwise_update, lemma_replaced,
    lemma_replaced_next, lemma_without_next, merged, merged_one, pairwise, replaced, swap_removed,
    without, Rules,
};
use crate::names::{Label, RestreamKey};
use crate::spec::v1;
use crate::state::input::{lemma_input_realizes_itself, Input, InputView};
use crate::state::output::{
    export_outputs, lemma_outputs_realize_themselves, make_outputs, merge_outputs, output_rules,
    outputs_exported, outputs_fresh, outputs_realize, outputs_view, replace_outputs, Output,
    OutputView,
};

verus! {

/// Content of a [`Restream`].
pub struct RestreamView {
    pub id: Id,
    pub key: Seq<char>,
    pub label: Option<Seq<char>>,
    pub input: InputView,
    pub outputs: Seq<OutputView>,
}

impl RestreamView {
    /// [`Restream`] newly made of the given [`v1::Restream`].
    pub open spec fn fresh(new: v1::RestreamView) -> Self {
        RestreamView {
            id: Id::Fresh,
            key: new.key,
            label: new.label,
            input: InputView::fresh(new.input),
            outputs: outputs_fresh(new.outputs),
        }
    }

    /// This [`Restream`] with the given [`v1::Restream`] applied.
    ///
    /// If `replace` is `true` then [`Restream::outputs`] are replaced with new
    /// ones, otherwise new ones are merged into them.
    pub open spec fn applied(self, new: v1::RestreamView, replace: bool) -> Self {
        RestreamView {
            key: new.key,
            label: new.label,
            input: self.input.applied(new.input),
            outputs: if replace {
                replaced(self.outputs, new.outputs, output_rules(replace))
            } else {
                merged(self.outputs, new.outputs, output_rules(replace))
            },
            ..self
        }
    }

    /// This [`Restream`] exported.
    pub open spec fn exported(self) -> v1::RestreamView {
        v1::RestreamView {
            key: self.key,
            label: self.label,
            input: self.input.exported(),
            outputs: outputs_exported(self.outputs),
        }
    }

    /// Tells whether this [`Restream`] is the `expected` one.
    pub open spec fn realizes(self, expected: Self) -> bool {
        &&& self.id.realizes(expected.id)
        &&& self.input.realizes(expected.input)
        &&& outputs_realize(self.outputs, expected.outputs)
        &&& self == RestreamView {
            id: self.id,
            input: self.input,
            outputs: self.outputs,
            ..expected
        }
    }
}

/// [`Restream`]s go by their keys.
pub open spec fn restream_rules(replace: bool) -> Rules<RestreamView, v1::RestreamView> {
    Rules {
        same: |restream: RestreamView, new: v1::RestreamView| restream.key == new.key,
        apply: |restream: RestreamView, new: v1::RestreamView| restream.applied(new, replace),
        make: |new: v1::RestreamView| RestreamView::fresh(new),
    }
}

/// Tells whether all [`Restream`]s have different keys.
pub open spec fn restreams_differ(restreams: Seq<RestreamView>) -> bool {
    forall|i: int, j: int|
        0 <= i < j < restreams.len() ==> (#[trigger] restreams[i]).key != (
        #[trigger] restreams[j]).key
}

/// Contents of [`Restream`]s.
pub open spec fn restreams_view(restreams: Seq<Restream>) -> Seq<RestreamView> {
    Seq::new(restreams.len(), |i: int| restreams[i]@)
}

/// [`RestreamView::realizes`] as a relation.
pub open spec fn restream_realizes() -> spec_fn(RestreamView, RestreamView) -> bool {
    |restream: RestreamView, expected: RestreamView| restream.realizes(expected)
}

/// Tells whether [`Restream`]s are the `expected` ones.
pub open spec fn restreams_realize(
    restreams: Seq<RestreamView>,
    expected: Seq<RestreamView>,
) -> bool {
    pairwise(restreams, expected, restream_realizes())
}

/// [`Restream`]s exported.
pub open spec fn restreams_exported(restreams: Seq<RestreamView>) -> Seq<v1::RestreamView> {
    Seq::new(restreams.len(), |i: int| restreams[i].exported())
}

/// Re-stream of a live stream from one `Input` to many `Output`s.
#[derive(Clone, Debug, PartialEq, Eq)]
pub struct Restream {
    /// Unique ID of this `Restream`.
    ///
    /// Once assigned, it never changes.
    pub id: RestreamId,
    /// Unique key of this `Restream` identifying it, and used to form its
    /// endpoints URLs.
    pub key: RestreamKey,
    /// Optional label of this `Restream`.
    pub label: Option<Label>,
    /// `Input` that a live stream is received from.
    pub input: Input,
    /// `Output`s that a live stream is re-streamed to.
    pub outputs: Vec<Output>,
}

impl Restream {
    /// Content of this [`Restream`].
    pub open spec fn view(&self) -> RestreamView {
        RestreamView {
            id: Id::Known(self.id.0),
            key: self.key@,
            label: v1::label_view(self.label),
            input: self.input@,
            outputs: outputs_view(self.outputs@),
        }
    }

    /// Creates a new [`Restream`] out of the given [`v1::Restream`].
    #[must_use]
    pub fn new(spec: v1::Restream) -> (made: Self)
        ensures
            made@.realizes(RestreamView::fresh(spec@)),
            made.key == spec.key,
            made.label == spec.label,
            made.input.key == spec.input.key,
            made.input.enabled == spec.input.enabled,
            made.input.srcs@.len() == spec.input.srcs@.len(),
            made.outputs@.len() == spec.outputs@.len(),
    {
        Self::with_id(RestreamId::random(), spec)
    }

    /// Creates a [`Restream`] with the given ID out of the given
    /// [`v1::Restream`].
    #[must_use]
    pub fn with_id(id: RestreamId, spec: v1::Restream) -> (made: Self)
        ensures
            made@.id == Id::Known(id.0),
            made@.realizes(RestreamView { id: Id::Known(id.0), ..RestreamView::fresh(spec@) }),
            made.id == id,
            made.key == spec.key,
            made.label == spec.label,
            made.input.key == spec.input.key,
            made.input.enabled == spec.input.enabled,
            made.input.srcs@.len() == spec.input.srcs@.len(),
            made.outputs@.len() == spec.outputs@.len(),
    {
        Self {
            id,
            key: spec.key,
            label: spec.label,
            input: Input::new(spec.input),
            outputs: make_outputs(spec.outputs),
        }
    }

    /// Applies the given [`v1::Restream`] to this [`Restream`].
    ///
    /// If `replace` is `true` then all the [`Restream::outputs`] will be
    /// replaced with new ones, otherwise new ones will be merged with already
    /// existing [`Restream::outputs`].
    pub fn apply(&mut self, new: v1::Restream, replace: bool)
        ensures
            final(self)@.realizes(old(self)@.applied(new@, replace)),
            final(self).key == new.key,
            final(self).label == new.label,
            final(self).id == old(self).id,
            final(self).input.key == new.input.key,
            final(self).input.enabled == new.input.enabled,
            final(self).input.srcs@.len() == new.input.srcs@.len(),
            final(self).input.id == old(self).input.id,
            final(self).input.status == old(self).input.status,
            replace ==> final(self).outputs@.len() == new.outputs@.len(),
            !replace ==> final(self).outputs@.len() >= old(self).outputs@.len(),
            final(self).input@.exported() == new.input@,
    {
        proof {
            lemma_restream_realizes_itself(*self);
        }
        self.apply_expected(new, replace, Ghost(old(self)@));
        proof {
            law_applied_input_exports_spec(old(self)@.input, new@.input, self@.input);
        }
    }

    /// Does what [`Restream::apply`] does to a [`Restream`] expected to be such.
    pub(crate) fn apply_expected(
        &mut self,
        new: v1::Restream,
        replace: bool,
        Ghost(expected): Ghost<RestreamView>,
    )
        requires
            old(self)@.realizes(expected),
        ensures
            final(self)@.realizes(expected.applied(new@, replace)),
            final(self).key == new.key,
            final(self).label == new.label,
            final(self).id == old(self).id,
            final(self).input.key == new.input.key,
            final(self).input.enabled == new.input.enabled,
            final(self).input.srcs@.len() == new.input.srcs@.len(),
            final(self).input.id == old(self).input.id,
            final(self).input.status == old(self).input.status,
            replace ==> final(self).outputs@.len() == new.outputs@.len(),
            !replace ==> final(self).outputs@.len() >= old(self).outputs@.len(),
    {
        proof {
            lemma_replaced(expected.outputs, new@.outputs, output_rules(replace));
            lemma_merged_grows(expected.outputs, new@.outputs, output_rules(replace));
        }
        self.key = new.key;
        self.label = new.label;
        self.input.apply_expected(new.input, Ghost(expected.input));
        if replace {
            let mut olds: Vec<Output> = Vec::new();
            std::mem::swap(&mut self.outputs, &mut olds);
            self.outputs = replace_outputs(olds, new.outputs, replace, Ghost(expected.outputs));
        } else {
            merge_outputs(&mut self.outputs, new.outputs, replace, Ghost(expected.outputs));
        }
    }

    /// Exports this [`Restream`] as a [`v1::Restream`].
    #[must_use]
    pub fn export(&self) -> (spec: v1::Restream)
        ensures
            spec@ == self@.exported(),
            spec.key@ == self.key@,
            spec@.label == self@.label,
            spec.input.key@ == self.input.key@,
            spec.input.enabled == self.input.enabled,
            spec.input.srcs@.len() == self.input.srcs@.len(),
            spec.outputs@.len() == self.outputs@.len(),
    {
        v1::Restream {
            key: self.key.clone(),
            label: self.label.clone(),
            input: self.input.export(),
            outputs: export_outputs(&self.outputs),
        }
    }
}

/// Existing [`Restream`] is the one it's expected to be.
pub(crate) proof fn lemma_restream_realizes_itself(restream: Restream)
    ensures
        restream@.realizes(restream@),
{
    lemma_input_realizes_itself(restream.input);
    lemma_outputs_realize_themselves(restream.outputs@);
}

/// Existing [`Restream`]s are the ones they are expected to be.
pub(crate) proof fn lemma_restreams_realize_themselves(restreams: Seq<Restream>)
    ensures
        restreams_realize(restreams_view(restreams), restreams_view(restreams)),
{
    assert forall|i: int| 0 <= i < restreams.len() implies (#[trigger] restreams[i]@).realizes(
        restreams[i]@,
    ) by {
        lemma_restream_realizes_itself(restreams[i]);
    }
}

/// Exports the `restreams`.
pub(crate) fn export_restreams(restreams: &Vec<Restream>) -> (specs: Vec<v1::Restream>)
    ensures
        v1::restreams_view(specs@) == restreams_exported(restreams_view(restreams@)),
{
    let mut specs: Vec<v1::Restream> = Vec::with_capacity(restreams.len());
    let mut n: usize = 0;
    while n < restreams.len()
        invariant
            n <= restreams@.len(),
            specs@.len() == n,
            forall|i: int| 0 <= i < n ==> #[trigger] specs@[i]@ == restreams@[i]@.exported(),
        decreases restreams@.len() - n,
    {
        specs.push(restreams[n].export());
        n = n + 1;
    }
    assert(v1::restreams_view(specs@) =~= restreams_exported(restreams_view(restreams@)));
    specs
}

/// Position of the first of the `restreams` with the given key.
pub(crate) fn find_restream(restreams: &Vec<Restream>, key: &RestreamKey) -> (found: Option<usize>)
    ensures
        match found {
            Some(n) => {
                &&& n < restreams@.len()
                &&& restreams@[n as int]@.key == key@
                &&& forall|i: int| 0 <= i < n ==> #[trigger] restreams@[i]@.key != key@
            },
            None => forall|i: int|
                0 <= i < restreams@.len() ==> #[trigger] restreams@[i]@.key != key@,
        },
{
    let mut n: usize = 0;
    while n < restreams.len()
        invariant
            n <= restreams@.len(),
            forall|i: int| 0 <= i < n ==> #[trigger] restreams@[i]@.key != key@,
        decreases restreams@.len() - n,
    {
        if restreams[n].key == *key {
            return Some(n);
        }
        n = n + 1;
    }
    None
}

/// Replaces the `olds` by the `news`.
pub(crate) fn replace_restreams(
    olds: Vec<Restream>,
    news: Vec<v1::Restream>,
    replace: bool,
    Ghost(expected): Ghost<Seq<RestreamView>>,
) -> (made: Vec<Restream>)
    requires
        restreams_realize(restreams_view(olds@), expected),
    ensures
        restreams_realize(
            restreams_view(made@),
            replaced(expected, v1::restreams_view(news@), restream_rules(replace)),
        ),
{
    let ghost given = news@;
    let ghost specs = v1::restreams_view(given);
    let ghost goal = replaced(expected, specs, restream_rules(replace));
    let mut olds = olds;
    let mut made: Vec<Restream> = Vec::with_capacity(news.len());
    let ghost mut left = expected;
    let ghost mut done: Seq<RestreamView> = seq![];
    proof {
        assert(specs.skip(0) == specs);
        assert(done + goal == goal);
    }
    for new in it: news
        invariant
            it.seq() == given,
            specs == v1::restreams_view(given),
            restreams_realize(restreams_view(olds@), left),
            restreams_realize(restreams_view(made@), done),
            done + replaced(left, specs.skip(it.index()), restream_rules(replace)) == goal,
    {
        let ghost spec = new@;
        let ghost had = olds@;
        let ghost ready = restreams_view(made@);
        let found = find_restream(&olds, &new.key);
        proof {
            lemma_restream_found(had, left, spec, replace, found);
            lemma_replaced_next(done, left, specs, it.index(), restream_rules(replace));
        }
        let next = match found {
            Some(n) => {
                let mut old = olds.swap_remove(n);
                old.apply_expected(new, replace, Ghost(left[n as int]));
                proof {
                    lemma_pairwise_swap_removed(
                        restreams_view(had),
                        left,
                        n as int,
                        restream_realizes(),
                    );
                    assert(restreams_view(olds@) == swap_removed(restreams_view(had), n as int));
                    done = done.push(left[n as int].applied(spec, replace));
                    left = swap_removed(left, n as int);
                }
                old
            },
            None => {
                proof {
                    done = done.push(RestreamView::fresh(spec));
                }
                Restream::new(new)
            },
        };
        made.push(next);
        proof {
            lemma_pairwise_push(ready, done.drop_last(), next@, done.last(), restream_realizes());
            assert(restreams_view(made@) == ready.push(next@));
            assert(done == done.drop_last().push(done.last()));
        }
    }
    proof {
        assert(specs.skip(specs.len() as int).len() == 0);
        assert(done + replaced(left, specs.skip(specs.len() as int), restream_rules(replace))
            == done);
    }
    made
}

/// Merges the `news` into the `restreams`.
pub(crate) fn merge_restreams(
    restreams: &mut Vec<Restream>,
    news: Vec<v1::Restream>,
    replace: bool,
    Ghost(expected): Ghost<Seq<RestreamView>>,
)
    requires
        restreams_realize(restreams_view(old(restreams)@), expected),
    ensures
        restreams_realize(
            restreams_view(final(restreams)@),
            merged(expected, v1::restreams_view(news@), restream_rules(replace)),
        ),
{
    let ghost given = news@;
    let ghost specs = v1::restreams_view(given);
    let ghost goal = merged(expected, specs, restream_rules(replace));
    let ghost mut done = expected;
    assert(specs.skip(0) == specs);
    for new in it: news
        invariant
            it.seq() == given,
            specs == v1::restreams_view(given),
            restreams_realize(restreams_view(restreams@), done),
            merged(done, specs.skip(it.index()), restream_rules(replace)) == goal,
    {
        let ghost spec = new@;
        let ghost had = restreams@;
        let found = find_restream(restreams, &new.key);
        proof {
            lemma_restream_found(had, done, spec, replace, found);
            lemma_merged_next(done, specs, it.index(), restream_rules(replace));
        }
        match found {
            Some(n) => {
                restreams[n].apply_expected(new, replace, Ghost(done[n as int]));
                proof {
                    let item = restreams@[n as int]@;
                    lemma_pairwise_update(
                        restreams_view(had),
                        done,
                        n as int,
                        item,
                        done[n as int].applied(spec, replace),
                        restream_realizes(),
                    );
                    assert(restreams_view(restreams@) == restreams_view(had).update(
                        n as int,
                        item,
                    ));
                }
            },
            None => {
                let item = Restream::new(new);
                restreams.push(item);
                proof {
                    lemma_pairwise_push(
                        restreams_view(had),
                        done,
                        item@,
                        RestreamView::fresh(spec),
                        restream_realizes(),
                    );
                    assert(restreams_view(restreams@) == restreams_view(had).push(item@));
                }
            },
        }
        proof {
            done = merged_one(done, spec, restream_rules(replace));
        }
    }
    assert(specs.skip(specs.len() as int).len() == 0);
}

/// [`Restream`]s are found alike to the expected ones.
proof fn lemma_restream_found(
    restreams: Seq<Restream>,
    expected: Seq<RestreamView>,
    spec: v1::RestreamView,
    replace: bool,
    found: Option<usize>,
)
    requires
        restreams_realize(restreams_view(restreams), expected),
        match found {
            Some(n) => {
                &&& n < restreams.len()
                &&& restreams[n as int]@.key == spec.key
                &&& forall|i: int| 0 <= i < n ==> #[trigger] restreams[i]@.key != spec.key
            },
            None => forall|i: int|
                0 <= i < restreams.len() ==> #[trigger] restreams[i]@.key != spec.key,
        },
    ensures
        match found {
            Some(n) => {
                &&& find(expected, spec, restream_rules(replace).same) == Some(n as int)
                &&& restreams[n as int]@.realizes(expected[n as int])
            },
            None => find(expected, spec, restream_rules(replace).same) is None,
        },
{
    assert forall|i: int|
        0 <= i < restreams.len() implies (#[trigger] expected[i]).key == restreams[i]@.key by {
        assert(restream_realizes()(restreams_view(restreams)[i], expected[i]));
    }
    match found {
        Some(n) => {
            assert(restream_realizes()(restreams_view(restreams)[n as int], expected[n as int]));
            lemma_found(expected, spec, restream_rules(replace).same, n as int);
        },
        None => lemma_not_found(expected, spec, restream_rules(replace).same),
    }
}

/// Tells whether a [`Restream`] has the given ID.
pub open spec fn restream_has_id() -> spec_fn(RestreamView, RestreamId) -> bool {
    |restream: RestreamView, id: RestreamId| restream.id == Id::Known(id.0)
}

/// Position of the first of the `restreams` with the given ID.
pub open spec fn restream_position(restreams: Seq<RestreamView>, id: RestreamId) -> Option<int> {
    find(restreams, id, restream_has_id())
}

/// Finds the first of the `restreams` with the given ID.
pub(crate) fn position_of_restream(restreams: &Vec<Restream>, id: RestreamId) -> (found: Option<
    usize,
>)
    ensures
        match found {
            Some(n) => {
                &&& n < restreams@.len()
                &&& restream_position(restreams_view(restreams@), id) == Some(n as int)
            },
            None => restream_position(restreams_view(restreams@), id) is None,
        },
{
    let ghost views = restreams_view(restreams@);
    let mut n: usize = 0;
    while n < restreams.len()
        invariant
            n <= restreams@.len(),
            views == restreams_view(restreams@),
            forall|i: int| 0 <= i < n ==> !restream_has_id()(#[trigger] views[i], id),
        decreases restreams@.len() - n,
    {
        if restreams[n].id == id {
            proof {
                lemma_found(views, id, restream_has_id(), n as int);
            }
            return Some(n);
        }
        n = n + 1;
    }
    proof {
        lemma_not_found(views, id, restream_has_id());
    }
    None
}

/// Removes all the `restreams` with the given ID.
///
/// Returns `false` if there are none.
pub(crate) fn remove_restreams(restreams: &mut Vec<Restream>, id: RestreamId) -> (removed: bool)
    ensures
        restreams_view(final(restreams)@) == without(
            restreams_view(old(restreams)@),
            id,
            restream_has_id(),
        ),
        removed == (restream_position(restreams_view(old(restreams)@), id) is Some),
{
    let mut all: Vec<Restream> = Vec::new();
    std::mem::swap(restreams, &mut all);
    let ghost given = all@;
    let ghost views = restreams_view(given);
    let mut removed = false;
    assert(without(views.take(0), id, restream_has_id()) == Seq::<RestreamView>::empty()) by {
        reveal(Seq::filter);
    }
    for restream in it: all
        invariant
            it.seq() == given,
            views == restreams_view(given),
            restreams_view(restreams@) == without(views.take(it.index()), id, restream_has_id()),
            removed == exists|i: int|
                0 <= i < it.index() && restream_has_id()(#[trigger] views[i], id),
    {
        let ghost n = it.index();
        let ghost kept = restreams@;
        proof {
            lemma_without_next(views, n, id, restream_has_id());
            assert(views[n] == restream@);
        }
        if restream.id == id {
            removed = true;
        } else {
            restreams.push(restream);
            assert(restreams_view(restreams@) == restreams_view(kept).push(views[n]));
        }
    }
    proof {
        assert(views.take(views.len() as int) == views);
        lemma_find(views, id, restream_has_id());
    }
    removed
}

} // verus!
