//! What merging specifications into a state changes, and what it keeps.

use vstd::prelude::*;

use crate::ids::Id;
use crate::laws::exports::{
    law_mixins_pass_if_differ, law_outputs_pass_if_differ, law_replaced_state_exports_spec,
    law_restreams_pass_if_differ, lemma_applied_input_exported, lemma_differing_news,
    lemma_differing_srcs, lemma_fresh_input_exported, lemma_fresh_output_exported,
    lemma_fresh_restream_exported, lemma_input_exported_alike, lemma_input_kept, lemma_mixin_rules,
    lemma_output_rules, lemma_restream_rules, lemma_src_rules, lemma_state_exported_alike,
};
use crate::lists::{
    find, first_clash, items_differ, lemma_filtered_alike, lemma_find, lemma_found_where_same,
    lemma_kept, lemma_merged_added, lemma_merged_apart, lemma_merged_good,
    lemma_merged_into_nothing, lemma_merged_items_differ, lemma_merged_twice,
    lemma_merged_untouched, lemma_replaced_by_differing, merged, news_differ, replaced, stems_from,
    successor,
};
use crate::spec::v1;
use crate::state::{State, StateView};
use crate::state::input::{
    lemma_input_realizes, lemma_replaced_srcs, src_realizes, src_rules, srcs_differ, Input,
    InputSrc, InputSrcView, InputView,
};
use crate::state::mixin::{
    mixin_realizes, mixin_rules, mixins_differ, mixins_exported, mixins_fresh, MixinView,
};
use crate::state::output::{
    output_realizes, output_rules, outputs_differ, outputs_exported, outputs_fresh, Output,
    OutputView,
};
use crate::state::restream::{
    restream_realizes, restream_rules, restreams_differ, restreams_realize, Restream, RestreamView,
};

verus! {

/// Mixins of an output merged with its specification once are left as they are
/// by that specification.
proof fn lemma_output_settled(output: OutputView, expected: OutputView, new: v1::OutputView)
    requires
        new.parts_differ(),
        output.realizes(expected),
        stems_from(expected, new, output_rules(false)),
    ensures
        output.applied(new, false) == output,
{
    let rules = mixin_rules();
    lemma_mixin_rules();
    assert(news_differ(new.mixins, rules.same));
    let olds = if expected == OutputView::fresh(new) {
        assert(Seq::<MixinView>::empty() + mixins_fresh(new.mixins) =~= mixins_fresh(new.mixins));
        lemma_merged_into_nothing(Seq::empty(), new.mixins, rules);
        assert(mixins_fresh(new.mixins) =~= merged(Seq::empty(), new.mixins, rules));
        Seq::empty()
    } else {
        let old = choose|old: OutputView|
            expected == #[trigger] (output_rules(false).apply)(old, new);
        assert(expected == old.applied(new, false));
        old.mixins
    };
    assert forall|i: int, a: MixinView, b: MixinView|
        #![trigger mixin_realizes()(a, b), (rules.apply)(a, new.mixins[i])]
        0 <= i < new.mixins.len() && mixin_realizes()(a, b) && stems_from(
            b,
            new.mixins[i],
            rules,
        ) implies (rules.apply)(a, new.mixins[i]) == a by {
        if b != MixinView::fresh(new.mixins[i]) {
            let old = choose|old: MixinView| b == #[trigger] (rules.apply)(old, new.mixins[i]);
            assert(b == old.applied(new.mixins[i]));
        }
    }
    lemma_merged_twice(olds, new.mixins, output.mixins, rules, mixin_realizes());
}

/// Input which stems from a specification whose parts differ is left as it is by
/// it.
proof fn lemma_input_settled(input: InputView, expected: InputView, new: v1::InputView)
    requires
        new.parts_differ(),
        input.realizes(expected),
        expected.exported() == new,
    ensures
        input.applied(new) == input,
{
    lemma_input_exported_alike(input, expected);
    lemma_input_kept(input);
}

/// Restream merged with its specification once is left as it is by that
/// specification.
proof fn lemma_restream_settled(
    restream: RestreamView,
    expected: RestreamView,
    new: v1::RestreamView,
)
    requires
        new.parts_differ(),
        restream.realizes(expected),
        stems_from(expected, new, restream_rules(false)),
    ensures
        restream.applied(new, false) == restream,
{
    let rules = output_rules(false);
    lemma_output_rules(false);
    assert(news_differ(new.outputs, rules.same));
    let olds = if expected == RestreamView::fresh(new) {
        lemma_fresh_input_exported(new.input);
        lemma_merged_into_nothing(Seq::empty(), new.outputs, rules);
        assert(outputs_fresh(new.outputs) =~= merged(Seq::empty(), new.outputs, rules));
        Seq::empty()
    } else {
        let old = choose|old: RestreamView|
            expected == #[trigger] (restream_rules(false).apply)(old, new);
        assert(expected == old.applied(new, false));
        lemma_applied_input_exported(old.input, new.input);
        old.outputs
    };
    lemma_input_settled(restream.input, expected.input, new.input);
    assert forall|i: int, a: OutputView, b: OutputView|
        #![trigger output_realizes()(a, b), (rules.apply)(a, new.outputs[i])]
        0 <= i < new.outputs.len() && output_realizes()(a, b) && stems_from(
            b,
            new.outputs[i],
            rules,
        ) implies (rules.apply)(a, new.outputs[i]) == a by {
        assert(new.outputs[i].parts_differ());
        lemma_output_settled(a, b, new.outputs[i]);
    }
    lemma_merged_twice(olds, new.outputs, restream.outputs, rules, output_realizes());
}

/// Merging a specification whose parts differ from one another into a state the
/// second time changes nothing.
pub proof fn law_merging_twice(before: StateView, spec: v1::SpecView, after: StateView)
    requires
        spec.parts_differ(),
        after.realizes(before.applied(spec, false)),
    ensures
        after.applied(spec, false) == after,
{
    let rules = restream_rules(false);
    let news = spec.restreams;
    lemma_restream_rules(false);
    assert(news_differ(news, rules.same));
    assert forall|i: int, a: RestreamView, b: RestreamView|
        #![trigger restream_realizes()(a, b), (rules.apply)(a, news[i])]
        0 <= i < news.len() && restream_realizes()(a, b) && stems_from(
            b,
            news[i],
            rules,
        ) implies (rules.apply)(a, news[i]) == a by {
        assert(news[i].parts_differ());
        lemma_restream_settled(a, b, news[i]);
    }
    lemma_merged_twice(before.restreams, news, after.restreams, rules, restream_realizes());
}

/// Merging keeps sources of mixins different.
proof fn lemma_merged_mixins_valid(olds: Seq<MixinView>, news: Seq<v1::MixinView>)
    requires
        first_clash(Set::empty(), v1::mixin_srcs(mixins_exported(olds))) is None,
    ensures
        first_clash(
            Set::empty(),
            v1::mixin_srcs(mixins_exported(merged(olds, news, mixin_rules()))),
        ) is None,
{
    let rules = mixin_rules();
    let after = merged(olds, news, rules);
    let (was, is) = (mixins_exported(olds), mixins_exported(after));
    lemma_mixin_rules();
    law_mixins_pass_if_differ(was);
    assert forall|i: int, j: int| 0 <= i < j < olds.len() implies (
    #[trigger] olds[i]).src.text != (#[trigger] olds[j]).src.text by {
        assert(was[i].src.text != was[j].src.text);
    }
    assert(items_differ(olds, rules.same));
    lemma_merged_items_differ(olds, news, rules);
    law_mixins_pass_if_differ(is);
    assert forall|i: int, j: int| 0 <= i < j < is.len() implies (#[trigger] is[i]).src.text != (
    #[trigger] is[j]).src.text by {
        let probe = is[i];
        assert(!((rules.same)(after[i], probe) && (rules.same)(after[j], probe)));
        assert((rules.same)(after[i], probe));
    }
}

/// Merging keeps outputs valid.
proof fn lemma_merged_outputs_valid(olds: Seq<OutputView>, news: Seq<v1::OutputView>)
    requires
        v1::are_valid_outputs(outputs_exported(olds)),
        v1::are_valid_outputs(news),
    ensures
        v1::are_valid_outputs(outputs_exported(merged(olds, news, output_rules(false)))),
{
    let rules = output_rules(false);
    let after = merged(olds, news, rules);
    let (was, is) = (outputs_exported(olds), outputs_exported(after));
    lemma_output_rules(false);
    law_outputs_pass_if_differ(was);
    assert forall|i: int, j: int| 0 <= i < j < olds.len() implies (
    #[trigger] olds[i]).dst.text != (#[trigger] olds[j]).dst.text by {
        assert(was[i].dst.text != was[j].dst.text);
    }
    assert(items_differ(olds, rules.same));
    lemma_merged_items_differ(olds, news, rules);
    law_outputs_pass_if_differ(is);
    assert forall|i: int, j: int| 0 <= i < j < is.len() implies (#[trigger] is[i]).dst.text != (
    #[trigger] is[j]).dst.text by {
        let probe = is[i];
        assert(!((rules.same)(after[i], probe) && (rules.same)(after[j], probe)));
        assert((rules.same)(after[i], probe));
    }
    let good = |output: OutputView| output.exported().is_valid();
    assert forall|k: int| 0 <= k < olds.len() implies good(#[trigger] olds[k]) by {
        assert(was[k].is_valid());
    }
    assert forall|i: int| #![trigger news[i]] 0 <= i < news.len() implies good(
        (rules.make)(news[i]),
    ) by {
        assert(news[i].is_valid());
        lemma_fresh_output_exported(news[i]);
    }
    assert forall|i: int, item: OutputView|
        #![trigger (rules.apply)(item, news[i])]
        0 <= i < news.len() && good(item) implies good((rules.apply)(item, news[i])) by {
        lemma_merged_mixins_valid(item.mixins, news[i].mixins);
    }
    lemma_merged_good(olds, news, rules, good);
    assert forall|i: int| 0 <= i < is.len() implies (#[trigger] is[i]).is_valid() by {
        assert(good(after[i]));
    }
}

/// Merging keeps a restream valid.
pub(crate) proof fn lemma_merged_restream_valid(old: RestreamView, new: v1::RestreamView)
    requires
        old.exported().is_valid(),
        new.is_valid(),
    ensures
        old.applied(new, false).exported().is_valid(),
{
    lemma_applied_input_exported(old.input, new.input);
    lemma_merged_outputs_valid(old.outputs, new.outputs);
}

/// Restreams with different keys, being valid themselves, are exported as a
/// valid specification, and the other way around.
pub(crate) proof fn lemma_state_valid(state: StateView)
    ensures
        state.exported().is_valid() <==> {
            &&& forall|i: int, j: int|
                0 <= i < j < state.restreams.len() ==> (#[trigger] state.restreams[i]).key != (
                #[trigger] state.restreams[j]).key
            &&& forall|i: int|
                0 <= i < state.restreams.len() ==> (
                #[trigger] state.restreams[i]).exported().is_valid()
        },
{
    let news = state.exported().restreams;
    law_restreams_pass_if_differ(news);
    if state.exported().is_valid() {
        assert forall|i: int, j: int| 0 <= i < j < state.restreams.len() implies (
        #[trigger] state.restreams[i]).key != (#[trigger] state.restreams[j]).key by {
            assert(news[i].key != news[j].key);
        }
        assert forall|i: int| 0 <= i < state.restreams.len() implies (
        #[trigger] state.restreams[i]).exported().is_valid() by {
            assert(news[i].is_valid());
        }
    }
}

/// Applying a valid specification to a state whose export is valid, no matter
/// whether it's replaced or merged, leaves one whose export is.
pub proof fn law_applying_keeps_valid(
    before: StateView,
    spec: v1::SpecView,
    replace: bool,
    after: StateView,
)
    requires
        before.exported().is_valid(),
        spec.is_valid(),
        after.realizes(before.applied(spec, replace)),
    ensures
        after.exported().is_valid(),
{
    if replace {
        law_replaced_state_exports_spec(before, spec, after);
    } else {
        let rules = restream_rules(false);
        let (olds, news) = (before.restreams, spec.restreams);
        let expected = before.applied(spec, false);
        let made = expected.restreams;
        lemma_state_exported_alike(after, expected);
        lemma_restream_rules(false);
        lemma_state_valid(before);
        lemma_state_valid(expected);
        assert(items_differ(olds, rules.same));
        lemma_merged_items_differ(olds, news, rules);
        assert forall|i: int, j: int| 0 <= i < j < made.len() implies (#[trigger] made[i]).key != (
        #[trigger] made[j]).key by {
            let probe = made[i].exported();
            assert(!((rules.same)(made[i], probe) && (rules.same)(made[j], probe)));
            assert((rules.same)(made[i], probe));
        }
        let good = |restream: RestreamView| restream.exported().is_valid();
        assert forall|i: int| #![trigger news[i]] 0 <= i < news.len() implies good(
            (rules.make)(news[i]),
        ) by {
            assert(news[i].is_valid());
            lemma_fresh_restream_exported(news[i]);
        }
        assert forall|i: int, item: RestreamView|
            #![trigger (rules.apply)(item, news[i])]
            0 <= i < news.len() && good(item) implies good((rules.apply)(item, news[i])) by {
            assert(news[i].is_valid());
            lemma_merged_restream_valid(item, news[i]);
        }
        lemma_merged_good(olds, news, rules, good);
        assert forall|i: int| 0 <= i < made.len() implies (
        #[trigger] made[i]).exported().is_valid() by {
            assert(good(made[i]));
        }
    }
}

/// What an existing input is expected to be is that very input.
proof fn lemma_actual_input(view: InputView, input: Input)
    requires
        view.realizes(input@),
    ensures
        view == input@,
    decreases input,
{
    assert forall|i: int| 0 <= i < view.srcs.len() implies view.srcs[i] == input@.srcs[i] by {
        assert(view.srcs[i].realizes(input@.srcs[i]));
        if let InputSrc::Local(a) = input.srcs@[i] {
            assert(decreases_to!(input => input.srcs@[i]));
            lemma_actual_input(view.srcs[i]->Local_0, a);
        }
    }
    assert(view.srcs =~= input@.srcs);
}

/// What an existing output is expected to be is that very output.
proof fn lemma_actual_output(view: OutputView, output: Output)
    requires
        view.realizes(output@),
    ensures
        view == output@,
{
    assert forall|i: int| 0 <= i < view.mixins.len() implies view.mixins[i]
        == output@.mixins[i] by {
        assert(mixin_realizes()(view.mixins[i], output@.mixins[i]));
    }
    assert(view.mixins =~= output@.mixins);
}

/// Being what an existing restream is leaves nothing open: it's that very
/// restream, with all the IDs of it.
pub proof fn law_existing_restream_is_exact(view: RestreamView, restream: Restream)
    requires
        view.realizes(restream@),
    ensures
        view == restream@,
{
    lemma_actual_input(view.input, restream.input);
    assert forall|i: int| 0 <= i < view.outputs.len() implies view.outputs[i]
        == restream@.outputs[i] by {
        assert(output_realizes()(view.outputs[i], restream@.outputs[i]));
        lemma_actual_output(view.outputs[i], restream.outputs@[i]);
    }
    assert(view.outputs =~= restream@.outputs);
}

/// Merging a specification into a state, each restream it specifies stands where
/// there has been one with the same key, brought in line with the specification,
/// or, if there has been none, is newly made and stands beyond all the restreams
/// there have been, provided that no other one it specifies has the same key.
pub proof fn law_merging_brings_specified(
    before: StateView,
    spec: v1::SpecView,
    after: StateView,
    i: int,
) -> (n: int)
    requires
        after.realizes(before.applied(spec, false)),
        0 <= i < spec.restreams.len(),
        forall|j: int|
            0 <= j < spec.restreams.len() && j != i ==> (#[trigger] spec.restreams[j]).key
                != spec.restreams[i].key,
    ensures
        0 <= n < after.restreams.len(),
        after.restreams[n].key == spec.restreams[i].key,
        n < before.restreams.len() ==> before.restreams[n].key == spec.restreams[i].key,
        n < before.restreams.len() <==> before.uses_key(spec.restreams[i].key),
        after.restreams[n].realizes(
            if n < before.restreams.len() {
                before.restreams[n].applied(spec.restreams[i], false)
            } else {
                RestreamView::fresh(spec.restreams[i])
            },
        ),
{
    let rules = restream_rules(false);
    let (olds, news) = (before.restreams, spec.restreams);
    let made = merged(olds, news, rules);
    lemma_restream_rules(false);
    lemma_merged_apart(olds, news, rules, i);
    let n = find(made, news[i], rules.same)->0;
    lemma_find(made, news[i], rules.same);
    lemma_find(olds, news[i], rules.same);
    assert(restream_realizes()(after.restreams[n], made[n]));
    n
}

/// Merging a specification of restreams with different keys into a state, what
/// stands beyond the restreams there have been is exactly what is newly made of
/// those of the specified ones whose keys haven't been used, in the order they
/// are specified in.
pub proof fn law_merging_adds_in_order(before: StateView, spec: v1::SpecView, after: StateView)
    requires
        v1::restreams_differ(spec.restreams),
        after.realizes(before.applied(spec, false)),
    ensures
        after.restreams.len() >= before.restreams.len(),
        restreams_realize(
            after.restreams.skip(before.restreams.len() as int),
            spec.restreams.filter(
                |new: v1::RestreamView| !before.uses_key(new.key),
            ).map_values(|new: v1::RestreamView| RestreamView::fresh(new)),
        ),
{
    let rules = restream_rules(false);
    let (olds, news) = (before.restreams, spec.restreams);
    let made = merged(olds, news, rules);
    let len = olds.len() as int;
    lemma_restream_rules(false);
    assert(news_differ(news, rules.same));
    lemma_merged_added(olds, news, rules);
    let p = |new: v1::RestreamView| !before.uses_key(new.key);
    let q = |new: v1::RestreamView| find(olds, new, rules.same) is None;
    assert forall|i: int| 0 <= i < news.len() implies p(#[trigger] news[i]) == q(news[i]) by {
        lemma_find(olds, news[i], rules.same);
    }
    lemma_filtered_alike(news, p, q);
    let goal = news.filter(p).map_values(|new: v1::RestreamView| RestreamView::fresh(new));
    assert(made.skip(len) =~= goal);
    assert forall|i: int| 0 <= i < goal.len() implies restream_realizes()(
        after.restreams.skip(len)[i],
        goal[i],
    ) by {
        assert(restream_realizes()(after.restreams[len + i], made[len + i]));
    }
}

/// Merging a specification into a state leaves all the restreams it doesn't
/// specify as they are, at the places they are at.
pub proof fn law_merging_keeps_unspecified(
    before: State,
    spec: v1::SpecView,
    after: StateView,
    n: int,
)
    requires
        after.realizes(before@.applied(spec, false)),
        0 <= n < before@.restreams.len(),
        forall|i: int|
            0 <= i < spec.restreams.len() ==> (#[trigger] spec.restreams[i]).key
                != before@.restreams[n].key,
    ensures
        n < after.restreams.len(),
        after.restreams[n] == before@.restreams[n],
{
    let rules = restream_rules(false);
    let made = before@.applied(spec, false).restreams;
    lemma_merged_untouched(before@.restreams, spec.restreams, rules, n);
    assert(restream_realizes()(after.restreams[n], made[n]));
    law_existing_restream_is_exact(after.restreams[n], before.restreams@[n]);
}

/// Replacing a state of restreams with different keys by a specification of
/// such, restreams stand in the specified order, each of them being the one
/// there has been with the same key, brought in line with the specification, or
/// a newly made one.
pub proof fn law_replacing_reuses(
    before: StateView,
    spec: v1::SpecView,
    after: StateView,
    i: int,
)
    requires
        restreams_differ(before.restreams),
        v1::restreams_differ(spec.restreams),
        after.realizes(before.applied(spec, true)),
        0 <= i < spec.restreams.len(),
    ensures
        after.restreams.len() == spec.restreams.len(),
        forall|n: int|
            0 <= n < before.restreams.len() && (#[trigger] before.restreams[n]).key
                == spec.restreams[i].key ==> after.restreams[i].realizes(
                before.restreams[n].applied(spec.restreams[i], true),
            ),
        !before.uses_key(spec.restreams[i].key) ==> after.restreams[i].realizes(
            RestreamView::fresh(spec.restreams[i]),
        ),
{
    let rules = restream_rules(true);
    let (olds, news) = (before.restreams, spec.restreams);
    assert(items_differ(olds, rules.same));
    assert(news_differ(news, rules.same));
    lemma_replaced_by_differing(olds, news, rules);
    let made = replaced(olds, news, rules);
    assert(restream_realizes()(after.restreams[i], made[i]));
    assert(made[i] == successor(olds, news[i], rules));
    lemma_find(olds, news[i], rules.same);
    assert forall|n: int|
        0 <= n < olds.len() && (#[trigger] olds[n]).key
            == news[i].key implies after.restreams[i].realizes(olds[n].applied(news[i], true)) by {
        lemma_found_where_same(olds, news[i], rules.same, n);
    }
}

/// Merging a specification into a state of restreams with different keys never
/// changes an ID of a restream: the one with the same key has the same ID, and so
/// does its input. Neither does replacing it by a specification of restreams with
/// different keys.
pub proof fn law_restream_ids_never_change(
    before: State,
    spec: v1::SpecView,
    replace: bool,
    after: StateView,
    n: int,
    m: int,
)
    requires
        restreams_differ(before@.restreams),
        replace ==> v1::restreams_differ(spec.restreams),
        after.realizes(before@.applied(spec, replace)),
        0 <= n < before@.restreams.len(),
        0 <= m < after.restreams.len(),
        before@.restreams[n].key == after.restreams[m].key,
    ensures
        after.restreams[m].id == before@.restreams[n].id,
        after.restreams[m].input.id == before@.restreams[n].input.id,
{
    let rules = restream_rules(replace);
    let (olds, news) = (before@.restreams, spec.restreams);
    let made = before@.applied(spec, replace).restreams;
    let kept = |a: RestreamView, b: RestreamView|
        b.id == a.id && b.key == a.key && b.input.id == a.input.id;
    lemma_restream_rules(replace);
    assert(items_differ(olds, rules.same));
    assert(replace ==> news_differ(news, rules.same));
    assert(restream_realizes()(after.restreams[m], made[m]));
    lemma_kept(olds, news, rules, replace, n, m, olds[n].exported(), kept);
    assert(olds[n] == before.restreams@[n]@);
}

/// Merging a specification into a restream of outputs with different destinations
/// never changes an ID of an output: the one with the same destination has the
/// same ID, and has the same status. Neither does replacing it by a specification
/// of outputs with different destinations.
pub proof fn law_output_ids_never_change(
    before: Restream,
    new: v1::RestreamView,
    replace: bool,
    after: RestreamView,
    n: int,
    m: int,
)
    requires
        outputs_differ(before@.outputs),
        replace ==> v1::outputs_differ(new.outputs),
        after.realizes(before@.applied(new, replace)),
        0 <= n < before@.outputs.len(),
        0 <= m < after.outputs.len(),
        before@.outputs[n].dst.text == after.outputs[m].dst.text,
    ensures
        after.outputs[m].id == before@.outputs[n].id,
        after.outputs[m].status == before@.outputs[n].status,
{
    let rules = output_rules(replace);
    let (olds, news) = (before@.outputs, new.outputs);
    let made = before@.applied(new, replace).outputs;
    let kept = |a: OutputView, b: OutputView|
        b.id == a.id && b.dst.text == a.dst.text && b.status == a.status;
    lemma_output_rules(replace);
    assert(items_differ(olds, rules.same));
    assert(replace ==> news_differ(news, rules.same));
    assert(output_realizes()(after.outputs[m], made[m]));
    lemma_kept(olds, news, rules, replace, n, m, olds[n].exported(), kept);
    assert(olds[n] == before.outputs@[n]@);
}

/// Merging a specification into an output of mixins with different sources never
/// changes an ID of a mixin: the one with the same source has the same ID, and
/// has the same status. Neither does replacing it by a specification of mixins
/// with different sources.
pub proof fn law_mixin_ids_never_change(
    before: Output,
    new: v1::OutputView,
    replace: bool,
    after: OutputView,
    n: int,
    m: int,
)
    requires
        mixins_differ(before@.mixins),
        replace ==> v1::mixins_differ(new.mixins),
        after.realizes(before@.applied(new, replace)),
        0 <= n < before@.mixins.len(),
        0 <= m < after.mixins.len(),
        before@.mixins[n].src.text == after.mixins[m].src.text,
    ensures
        after.mixins[m].id == before@.mixins[n].id,
        after.mixins[m].status == before@.mixins[n].status,
{
    let rules = mixin_rules();
    let (olds, news) = (before@.mixins, new.mixins);
    let made = before@.applied(new, replace).mixins;
    let kept = |a: MixinView, b: MixinView|
        b.id == a.id && b.src.text == a.src.text && b.status == a.status;
    lemma_mixin_rules();
    assert(items_differ(olds, rules.same));
    assert(replace ==> news_differ(news, rules.same));
    assert(mixin_realizes()(after.mixins[m], made[m]));
    lemma_kept(olds, news, rules, replace, n, m, olds[n].exported(), kept);
    assert(olds[n] == before.mixins@[n]@);
}

/// Applying a specification of different sources to an input of such never
/// changes an ID of an input it pulls from: the one with the same key has the
/// same ID, has the same status and keeps its players.
pub proof fn law_local_input_ids_never_change(
    before: Input,
    new: v1::InputView,
    after: InputView,
    n: int,
    m: int,
)
    requires
        srcs_differ(before@.srcs),
        v1::srcs_differ(new.srcs),
        after.realizes(before@.applied(new)),
        0 <= n < before@.srcs.len(),
        0 <= m < after.srcs.len(),
        before@.srcs[n] is Local,
        after.srcs[m] is Local,
        before@.srcs[n]->Local_0.key == after.srcs[m]->Local_0.key,
    ensures
        after.srcs[m]->Local_0.id == before@.srcs[n]->Local_0.id,
        after.srcs[m]->Local_0.status == before@.srcs[n]->Local_0.status,
        after.srcs[m]->Local_0.srs_player_ids == before@.srcs[n]->Local_0.srs_player_ids,
{
    let rules = src_rules();
    let (olds, news) = (before@.srcs, new.srcs);
    let made = before@.applied(new).srcs;
    let kept = |a: InputSrcView, b: InputSrcView|
        match (a, b) {
            (InputSrcView::Remote(a), InputSrcView::Remote(b)) => a.text == b.text,
            (InputSrcView::Local(a), InputSrcView::Local(b)) => {
                &&& b.id == a.id
                &&& b.key == a.key
                &&& b.status == a.status
                &&& b.srs_player_ids == a.srs_player_ids
            },
            _ => false,
        };
    lemma_src_rules();
    lemma_replaced_srcs(olds, news);
    lemma_differing_srcs(olds);
    lemma_differing_news(news);
    lemma_input_realizes(after, before@.applied(new));
    assert(src_realizes()(after.srcs[m], made[m]));
    lemma_kept(olds, news, rules, true, n, m, olds[n].exported(), kept);
    let input = before.srcs@[n]->Local_0;
    assert(olds[n] == before.srcs@[n]@);
    assert(olds[n]->Local_0 == input@);
    assert(input@.id == Id::Known(input.id.0));
}

} // verus!
