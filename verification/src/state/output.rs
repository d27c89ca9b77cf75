//! Downstream destinations of restreams.

use vstd::prelude::*;

use crate::addresses::{OutputDstUrl, UrlView};
use crate::ids::{Id, OutputId};
use crate::lists::{
    find, lemma_find, lemma_found, lemma_merged_grows, lemma_merged_next, lemma_not_found,
    lemma_pairwise_push, lemma_pairwise_swap_removed, lemma_pairwise_update, lemma_replaced,
    lemma_replaced_next, lemma_without_next, merged, merged_one, pairwise, replaced, swap_removed,
    without, Rules,
};
use crate::measures::{Status, Volume};
use crate::names::Label;
use crate::spec::v1;
use crate::state::mixin::{
    export_mixins, lemma_mixins_realize_themselves, make_mixins, merge_mixins, mixin_rules,
    mixins_exported, mixins_fresh, mixins_realize, mixins_view, replace_mixins, Mixin, MixinView,
};

verus! {

/// Content of an [`Output`].
pub struct OutputView {
    pub id: Id,
    pub dst: UrlView,
    pub label: Option<Seq<char>>,
    pub volume: u16,
    pub mixins: Seq<MixinView>,
    pub enabled: bool,
    pub status: Status,
}

impl OutputView {
    /// [`Output`] newly made of the given [`v1::Output`].
    pub open spec fn fresh(new: v1::OutputView) -> Self {
        OutputView {
            id: Id::Fresh,
            dst: new.dst,
            label: new.label,
            volume: new.volume,
            mixins: mixins_fresh(new.mixins),
            enabled: new.enabled,
            status: Status::Offline,
        }
    }

    /// This [`Output`] with the given [`v1::Output`] applied.
    ///
    /// If `replace` is `true` then [`Output::mixins`] are replaced with new
    /// ones, otherwise new ones are merged into them.
    pub open spec fn applied(self, new: v1::OutputView, replace: bool) -> Self {
        OutputView {
            dst: new.dst,
            label: new.label,
            volume: new.volume,
            mixins: if replace {
                replaced(self.mixins, new.mixins, mixin_rules())
            } else {
                merged(self.mixins, new.mixins, mixin_rules())
            },
            enabled: new.enabled,
            ..self
        }
    }

    /// This [`Output`] exported.
    pub open spec fn exported(self) -> v1::OutputView {
        v1::OutputView {
            dst: self.dst,
            label: self.label,
            volume: self.volume,
            mixins: mixins_exported(self.mixins),
            enabled: self.enabled,
        }
    }

    /// Tells whether this [`Output`] is the `expected` one.
    pub open spec fn realizes(self, expected: Self) -> bool {
        &&& self.id.realizes(expected.id)
        &&& mixins_realize(self.mixins, expected.mixins)
        &&& self == OutputView { id: self.id, mixins: self.mixins, ..expected }
    }
}

/// [`Output`]s go by their destinations.
pub open spec fn output_rules(replace: bool) -> Rules<OutputView, v1::OutputView> {
    Rules {
        same: |output: OutputView, new: v1::OutputView| output.dst.text == new.dst.text,
        apply: |output: OutputView, new: v1::OutputView| output.applied(new, replace),
        make: |new: v1::OutputView| OutputView::fresh(new),
    }
}

/// Tells whether all [`Output`]s have different destinations.
pub open spec fn outputs_differ(outputs: Seq<OutputView>) -> bool {
    forall|i: int, j: int|
        0 <= i < j < outputs.len() ==> (#[trigger] outputs[i]).dst.text != (
        #[trigger] outputs[j]).dst.text
}

/// Contents of [`Output`]s.
pub open spec fn outputs_view(outputs: Seq<Output>) -> Seq<OutputView> {
    Seq::new(outputs.len(), |i: int| outputs[i]@)
}

/// [`OutputView::realizes`] as a relation.
pub open spec fn output_realizes() -> spec_fn(OutputView, OutputView) -> bool {
    |output: OutputView, expected: OutputView| output.realizes(expected)
}

/// Tells whether [`Output`]s are the `expected` ones.
pub open spec fn outputs_realize(outputs: Seq<OutputView>, expected: Seq<OutputView>) -> bool {
    pairwise(outputs, expected, output_realizes())
}

/// [`Output`]s exported.
pub open spec fn outputs_exported(outputs: Seq<OutputView>) -> Seq<v1::OutputView> {
    Seq::new(outputs.len(), |i: int| outputs[i].exported())
}

/// Downstream destination that a `Restream` re-streams a live stream to.
#[derive(Clone, Debug, PartialEq, Eq)]
pub struct Output {
    /// Unique ID of this `Output`.
    ///
    /// Once assigned, it never changes.
    pub id: OutputId,
    /// Downstream URL to re-stream a live stream onto.
    ///
    /// At the moment only [RTMP] and [Icecast] are supported.
    ///
    /// [Icecast]: https://icecast.org
    /// [RTMP]: https://en.wikipedia.org/wiki/Real-Time_Messaging_Protocol
    pub dst: OutputDstUrl,
    /// Optional label of this `Output`.
    pub label: Option<Label>,
    /// Volume rate of this `Output`'s audio tracks when mixed with
    /// `Output.mixins`.
    ///
    /// Has no effect when there is no `Output.mixins`.
    pub volume: Volume,
    /// `Mixin`s to mix this `Output` with before re-streaming it to its
    /// downstream destination.
    ///
    /// If empty, then no mixing is performed and re-streaming is as cheap as
    /// possible (just copies bytes "as is").
    pub mixins: Vec<Mixin>,
    /// Indicator whether this `Output` is enabled, so is allowed to perform a
    /// live stream re-streaming to its downstream destination.
    pub enabled: bool,
    /// `Status` of this `Output` indicating whether it actually re-streams a
    /// live stream to its downstream destination.
    pub status: Status,
}

impl Output {
    /// Content of this [`Output`].
    pub open spec fn view(&self) -> OutputView {
        OutputView {
            id: Id::Known(self.id.0),
            dst: self.dst@,
            label: v1::label_view(self.label),
            volume: self.volume@,
            mixins: mixins_view(self.mixins@),
            enabled: self.enabled,
            status: self.status,
        }
    }

    /// Creates a new [`Output`] out of the given [`v1::Output`].
    #[must_use]
    pub fn new(spec: v1::Output) -> (made: Self)
        ensures
            made@.realizes(OutputView::fresh(spec@)),
            made.dst == spec.dst,
            made.label == spec.label,
            made.volume == spec.volume,
            made.enabled == spec.enabled,
            made.status == Status::Offline,
            made.mixins@.len() == spec.mixins@.len(),
    {
        Self::with_id(OutputId::random(), spec)
    }

    /// Creates an [`Output`] with the given ID out of the given [`v1::Output`].
    #[must_use]
    pub fn with_id(id: OutputId, spec: v1::Output) -> (made: Self)
        ensures
            made@.id == Id::Known(id.0),
            made@.realizes(OutputView { id: Id::Known(id.0), ..OutputView::fresh(spec@) }),
            made.id == id,
            made.dst == spec.dst,
            made.label == spec.label,
            made.volume == spec.volume,
            made.enabled == spec.enabled,
            made.status == Status::Offline,
            made.mixins@.len() == spec.mixins@.len(),
    {
        Self {
            id,
            dst: spec.dst,
            label: spec.label,
            volume: spec.volume,
            mixins: make_mixins(spec.mixins),
            enabled: spec.enabled,
            status: Status::Offline,
        }
    }

    /// Applies the given [`v1::Output`] to this [`Output`].
    ///
    /// If `replace` is `true` then all the [`Output::mixins`] will be replaced
    /// with new ones, otherwise new ones will be merged with already existing
    /// [`Output::mixins`].
    pub fn apply(&mut self, new: v1::Output, replace: bool)
        ensures
            final(self)@.realizes(old(self)@.applied(new@, replace)),
            final(self).dst == new.dst,
            final(self).label == new.label,
            final(self).volume == new.volume,
            final(self).enabled == new.enabled,
            final(self).id == old(self).id,
            final(self).status == old(self).status,
            replace ==> final(self).mixins@.len() == new.mixins@.len(),
            !replace ==> final(self).mixins@.len() >= old(self).mixins@.len(),
    {
        proof {
            lemma_mixins_realize_themselves(self.mixins@);
        }
        self.apply_expected(new, replace, Ghost(old(self)@));
    }

    /// Does what [`Output::apply`] does to an [`Output`] expected to be such.
    pub(crate) fn apply_expected(
        &mut self,
        new: v1::Output,
        replace: bool,
        Ghost(expected): Ghost<OutputView>,
    )
        requires
            old(self)@.realizes(expected),
        ensures
            final(self)@.realizes(expected.applied(new@, replace)),
            final(self).dst == new.dst,
            final(self).label == new.label,
            final(self).volume == new.volume,
            final(self).enabled == new.enabled,
            final(self).id == old(self).id,
            final(self).status == old(self).status,
            replace ==> final(self).mixins@.len() == new.mixins@.len(),
            !replace ==> final(self).mixins@.len() >= old(self).mixins@.len(),
    {
        proof {
            lemma_replaced(expected.mixins, new@.mixins, mixin_rules());
            lemma_merged_grows(expected.mixins, new@.mixins, mixin_rules());
        }
        self.dst = new.dst;
        self.label = new.label;
        self.volume = new.volume;
        self.enabled = new.enabled;
        if replace {
            let mut olds: Vec<Mixin> = Vec::new();
            std::mem::swap(&mut self.mixins, &mut olds);
            self.mixins = replace_mixins(olds, new.mixins, Ghost(expected.mixins));
        } else {
            merge_mixins(&mut self.mixins, new.mixins, Ghost(expected.mixins));
        }
    }

    /// Exports this [`Output`] as a [`v1::Output`].
    #[must_use]
    pub fn export(&self) -> (spec: v1::Output)
        ensures
            spec@ == self@.exported(),
            spec.dst@ == self.dst@,
            spec@.label == self@.label,
            spec.volume@ == self.volume@,
            spec.enabled == self.enabled,
            spec.mixins@.len() == self.mixins@.len(),
    {
        v1::Output {
            dst: self.dst.clone(),
            label: self.label.clone(),
            volume: self.volume,
            mixins: export_mixins(&self.mixins),
            enabled: self.enabled,
        }
    }
}

/// Contents of [`Output`]s newly made of the given [`v1::Output`]s.
pub open spec fn outputs_fresh(news: Seq<v1::OutputView>) -> Seq<OutputView> {
    Seq::new(news.len(), |i: int| OutputView::fresh(news[i]))
}

/// Existing [`Output`]s are the ones they are expected to be.
pub(crate) proof fn lemma_outputs_realize_themselves(outputs: Seq<Output>)
    ensures
        outputs_realize(outputs_view(outputs), outputs_view(outputs)),
{
}

/// Creates [`Output`]s out of the `news`.
pub(crate) fn make_outputs(news: Vec<v1::Output>) -> (made: Vec<Output>)
    ensures
        outputs_realize(outputs_view(made@), outputs_fresh(v1::outputs_view(news@))),
{
    let ghost given = news@;
    let ghost goal = outputs_fresh(v1::outputs_view(given));
    let mut made: Vec<Output> = Vec::with_capacity(news.len());
    for new in it: news
        invariant
            it.seq() == given,
            goal == outputs_fresh(v1::outputs_view(given)),
            outputs_realize(outputs_view(made@), goal.take(it.index())),
    {
        let ghost n = it.index();
        let ghost ready = outputs_view(made@);
        let item = Output::new(new);
        made.push(item);
        proof {
            lemma_pairwise_push(ready, goal.take(n), item@, goal[n], output_realizes());
            assert(outputs_view(made@) == ready.push(item@));
            assert(goal.take(n).push(goal[n]) == goal.take(n + 1));
        }
    }
    assert(goal.take(goal.len() as int) == goal);
    made
}

/// Exports the `outputs`.
pub(crate) fn export_outputs(outputs: &Vec<Output>) -> (specs: Vec<v1::Output>)
    ensures
        v1::outputs_view(specs@) == outputs_exported(outputs_view(outputs@)),
        specs@.len() == outputs@.len(),
{
    let mut specs: Vec<v1::Output> = Vec::with_capacity(outputs.len());
    let mut n: usize = 0;
    while n < outputs.len()
        invariant
            n <= outputs@.len(),
            specs@.len() == n,
            forall|i: int| 0 <= i < n ==> #[trigger] specs@[i]@ == outputs@[i]@.exported(),
        decreases outputs@.len() - n,
    {
        specs.push(outputs[n].export());
        n = n + 1;
    }
    assert(v1::outputs_view(specs@) =~= outputs_exported(outputs_view(outputs@)));
    specs
}

/// Position of the first of the `outputs` with the given destination.
pub(crate) fn find_output(outputs: &Vec<Output>, dst: &OutputDstUrl) -> (found: Option<usize>)
    ensures
        match found {
            Some(n) => {
                &&& n < outputs@.len()
                &&& outputs@[n as int]@.dst.text == dst@.text
                &&& forall|i: int| 0 <= i < n ==> #[trigger] outputs@[i]@.dst.text != dst@.text
            },
            None => forall|i: int|
                0 <= i < outputs@.len() ==> #[trigger] outputs@[i]@.dst.text != dst@.text,
        },
{
    let mut n: usize = 0;
    while n < outputs.len()
        invariant
            n <= outputs@.len(),
            forall|i: int| 0 <= i < n ==> #[trigger] outputs@[i]@.dst.text != dst@.text,
        decreases outputs@.len() - n,
    {
        if outputs[n].dst == *dst {
            return Some(n);
        }
        n = n + 1;
    }
    None
}

/// Replaces the `olds` by the `news`.
pub(crate) fn replace_outputs(
    olds: Vec<Output>,
    news: Vec<v1::Output>,
    replace: bool,
    Ghost(expected): Ghost<Seq<OutputView>>,
) -> (made: Vec<Output>)
    requires
        outputs_realize(outputs_view(olds@), expected),
    ensures
        outputs_realize(
            outputs_view(made@),
            replaced(expected, v1::outputs_view(news@), output_rules(replace)),
        ),
{
    let ghost given = news@;
    let ghost specs = v1::outputs_view(given);
    let ghost goal = replaced(expected, specs, output_rules(replace));
    let mut olds = olds;
    let mut made: Vec<Output> = Vec::with_capacity(news.len());
    let ghost mut left = expected;
    let ghost mut done: Seq<OutputView> = seq![];
    proof {
        assert(specs.skip(0) == specs);
        assert(done + goal == goal);
    }
    for new in it: news
        invariant
            it.seq() == given,
            specs == v1::outputs_view(given),
            outputs_realize(outputs_view(olds@), left),
            outputs_realize(outputs_view(made@), done),
            done + replaced(left, specs.skip(it.index()), output_rules(replace)) == goal,
    {
        let ghost spec = new@;
        let ghost had = olds@;
        let ghost ready = outputs_view(made@);
        let found = find_output(&olds, &new.dst);
        proof {
            lemma_output_found(had, left, spec, replace, found);
            lemma_replaced_next(done, left, specs, it.index(), output_rules(replace));
        }
        let next = match found {
            Some(n) => {
                let mut old = olds.swap_remove(n);
                old.apply_expected(new, replace, Ghost(left[n as int]));
                proof {
                    lemma_pairwise_swap_removed(
                        outputs_view(had),
                        left,
                        n as int,
                        output_realizes(),
                    );
                    assert(outputs_view(olds@) == swap_removed(outputs_view(had), n as int));
                    done = done.push(left[n as int].applied(spec, replace));
                    left = swap_removed(left, n as int);
                }
                old
            },
            None => {
                proof {
                    done = done.push(OutputView::fresh(spec));
                }
                Output::new(new)
            },
        };
        made.push(next);
        proof {
            lemma_pairwise_push(ready, done.drop_last(), next@, done.last(), output_realizes());
            assert(outputs_view(made@) == ready.push(next@));
            assert(done == done.drop_last().push(done.last()));
        }
    }
    proof {
        assert(specs.skip(specs.len() as int).len() == 0);
        assert(done + replaced(left, specs.skip(specs.len() as int), output_rules(replace))
            == done);
    }
    made
}

/// Merges the `news` into the `outputs`.
pub(crate) fn merge_outputs(
    outputs: &mut Vec<Output>,
    news: Vec<v1::Output>,
    replace: bool,
    Ghost(expected): Ghost<Seq<OutputView>>,
)
    requires
        outputs_realize(outputs_view(old(outputs)@), expected),
    ensures
        outputs_realize(
            outputs_view(final(outputs)@),
            merged(expected, v1::outputs_view(news@), output_rules(replace)),
        ),
{
    let ghost given = news@;
    let ghost specs = v1::outputs_view(given);
    let ghost goal = merged(expected, specs, output_rules(replace));
    let ghost mut done = expected;
    assert(specs.skip(0) == specs);
    for new in it: news
        invariant
            it.seq() == given,
            specs == v1::outputs_view(given),
            outputs_realize(outputs_view(outputs@), done),
            merged(done, specs.skip(it.index()), output_rules(replace)) == goal,
    {
        let ghost spec = new@;
        let ghost had = outputs@;
        let found = find_output(outputs, &new.dst);
        proof {
            lemma_output_found(had, done, spec, replace, found);
            lemma_merged_next(done, specs, it.index(), output_rules(replace));
        }
        match found {
            Some(n) => {
                outputs[n].apply_expected(new, replace, Ghost(done[n as int]));
                proof {
                    let item = outputs@[n as int]@;
                    lemma_pairwise_update(
                        outputs_view(had),
                        done,
                        n as int,
                        item,
                        done[n as int].applied(spec, replace),
                        output_realizes(),
                    );
                    assert(outputs_view(outputs@) == outputs_view(had).update(n as int, item));
                }
            },
            None => {
                let item = Output::new(new);
                outputs.push(item);
                proof {
                    lemma_pairwise_push(
                        outputs_view(had),
                        done,
                        item@,
                        OutputView::fresh(spec),
                        output_realizes(),
                    );
                    assert(outputs_view(outputs@) == outputs_view(had).push(item@));
                }
            },
        }
        proof {
            done = merged_one(done, spec, output_rules(replace));
        }
    }
    assert(specs.skip(specs.len() as int).len() == 0);
}

/// [`Output`]s are found alike to the expected ones.
proof fn lemma_output_found(
    outputs: Seq<Output>,
    expected: Seq<OutputView>,
    spec: v1::OutputView,
    replace: bool,
    found: Option<usize>,
)
    requires
        outputs_realize(outputs_view(outputs), expected),
        match found {
            Some(n) => {
                &&& n < outputs.len()
                &&& outputs[n as int]@.dst.text == spec.dst.text
                &&& forall|i: int| 0 <= i < n ==> #[trigger] outputs[i]@.dst.text != spec.dst.text
            },
            None => forall|i: int|
                0 <= i < outputs.len() ==> #[trigger] outputs[i]@.dst.text != spec.dst.text,
        },
    ensures
        match found {
            Some(n) => {
                &&& find(expected, spec, output_rules(replace).same) == Some(n as int)
                &&& outputs[n as int]@.realizes(expected[n as int])
            },
            None => find(expected, spec, output_rules(replace).same) is None,
        },
{
    assert forall|i: int|
        0 <= i < outputs.len() implies (#[trigger] expected[i]).dst.text
        == outputs[i]@.dst.text by {
        assert(output_realizes()(outputs_view(outputs)[i], expected[i]));
    }
    match found {
        Some(n) => {
            assert(output_realizes()(outputs_view(outputs)[n as int], expected[n as int]));
            lemma_found(expected, spec, output_rules(replace).same, n as int);
        },
        None => lemma_not_found(expected, spec, output_rules(replace).same),
    }
}

/// Tells whether an [`Output`] has the given ID.
pub open spec fn output_has_id() -> spec_fn(OutputView, OutputId) -> bool {
    |output: OutputView, id: OutputId| output.id == Id::Known(id.0)
}

/// Position of the first of the `outputs` with the given ID.
pub open spec fn output_position(outputs: Seq<OutputView>, id: OutputId) -> Option<int> {
    find(outputs, id, output_has_id())
}

/// Finds the first of the `outputs` with the given ID.
pub(crate) fn position_of_output(outputs: &Vec<Output>, id: OutputId) -> (found: Option<usize>)
    ensures
        match found {
            Some(n) => {
                &&& n < outputs@.len()
                &&& output_position(outputs_view(outputs@), id) == Some(n as int)
            },
            None => output_position(outputs_view(outputs@), id) is None,
        },
{
    let ghost views = outputs_view(outputs@);
    let mut n: usize = 0;
    while n < outputs.len()
        invariant
            n <= outputs@.len(),
            views == outputs_view(outputs@),
            forall|i: int| 0 <= i < n ==> !output_has_id()(#[trigger] views[i], id),
        decreases outputs@.len() - n,
    {
        if outputs[n].id == id {
            proof {
                lemma_found(views, id, output_has_id(), n as int);
            }
            return Some(n);
        }
        n = n + 1;
    }
    proof {
        lemma_not_found(views, id, output_has_id());
    }
    None
}

/// Removes all the `outputs` with the given ID.
///
/// Returns `false` if there are none.
pub(crate) fn remove_outputs(outputs: &mut Vec<Output>, id: OutputId) -> (removed: bool)
    ensures
        outputs_view(final(outputs)@) == without(outputs_view(old(outputs)@), id, output_has_id()),
        removed == (output_position(outputs_view(old(outputs)@), id) is Some),
{
    let mut all: Vec<Output> = Vec::new();
    std::mem::swap(outputs, &mut all);
    let ghost given = all@;
    let ghost views = outputs_view(given);
    let mut removed = false;
    assert(without(views.take(0), id, output_has_id()) == Seq::<OutputView>::empty()) by {
        reveal(Seq::filter);
    }
    for output in it: all
        invariant
            it.seq() == given,
            views == outputs_view(given),
            outputs_view(outputs@) == without(views.take(it.index()), id, output_has_id()),
            removed == exists|i: int|
                0 <= i < it.index() && output_has_id()(#[trigger] views[i], id),
    {
        let ghost n = it.index();
        let ghost kept = outputs@;
        proof {
            lemma_without_next(views, n, id, output_has_id());
            assert(views[n] == output@);
        }
        if output.id == id {
            removed = true;
        } else {
            outputs.push(output);
            assert(outputs_view(outputs@) == outputs_view(kept).push(views[n]));
        }
    }
    proof {
        assert(views.take(views.len() as int) == views);
        lemma_find(views, id, output_has_id());
    }
    removed
}

} // verus!
