//! What operations do to each field of items of a state.

use vstd::prelude::*;

use crate::ids::Id;
use crate::laws::exports::{
    lemma_exported_srcs, lemma_fresh_input_exported, lemma_input_exported_alike, lemma_mixin_rules,
    lemma_output_rules, lemma_restream_rules,
};
use crate::lists::{
    find, lemma_find, lemma_found, lemma_merged_apart, lemma_merged_untouched, lemma_not_found,
    lemma_replaced, merged, stems_from, swap_removed,
};
use crate::measures::Status;
use crate::spec::{self, v1, FailoverPushInput, PullInput, PushInput, Spec};
use crate::state::{State, StateView};
use crate::state::input::{
    lemma_replaced_srcs, replaced_srcs, src_identified, src_rules, Input, InputSrc, InputSrcView,
    InputView, RemoteInputSrc,
};
use crate::state::mixin::{mixin_realizes, mixin_rules, Mixin, MixinView};
use crate::state::output::{output_realizes, output_rules, Output, OutputView};
use crate::state::restream::{restream_realizes, restream_rules, Restream, RestreamView};

verus! {

/// Content of a mixin is all its fields.
pub proof fn law_content_of_mixin(mixin: Mixin, spec: v1::Mixin)
    ensures
        mixin@.id == Id::Known(mixin.id.0),
        mixin@.src == mixin.src@,
        mixin@.volume == mixin.volume@,
        mixin@.delay == mixin.delay@,
        mixin@.status == mixin.status,
        spec@.src == spec.src@,
        spec@.volume == spec.volume@,
        spec@.delay == spec.delay@,
{
}

/// Content of an output is all its fields.
pub proof fn law_content_of_output(output: Output, spec: v1::Output)
    ensures
        output@.id == Id::Known(output.id.0),
        output@.dst == output.dst@,
        output@.label is Some <==> output.label is Some,
        output.label matches Some(label) ==> output@.label == Some(label@),
        output@.volume == output.volume@,
        output@.mixins.len() == output.mixins@.len(),
        forall|i: int|
            0 <= i < output.mixins@.len() ==> #[trigger] output@.mixins[i] == output.mixins@[i]@,
        output@.enabled == output.enabled,
        output@.status == output.status,
        spec@.dst == spec.dst@,
        spec@.label is Some <==> spec.label is Some,
        spec.label matches Some(label) ==> spec@.label == Some(label@),
        spec@.volume == spec.volume@,
        spec@.mixins.len() == spec.mixins@.len(),
        forall|i: int|
            0 <= i < spec.mixins@.len() ==> #[trigger] spec@.mixins[i] == spec.mixins@[i]@,
        spec@.enabled == spec.enabled,
{
}

/// Content of an input is all its fields.
pub proof fn law_content_of_input(input: Input, spec: v1::Input)
    ensures
        input@.id == Id::Known(input.id.0),
        input@.key == input.key@,
        input@.srcs.len() == input.srcs@.len(),
        forall|i: int|
            0 <= i < input.srcs@.len() ==> #[trigger] input@.srcs[i] == input.srcs@[i]@,
        input@.enabled == input.enabled,
        input@.status == input.status,
        input@.srs_publisher_id == input.srs_publisher_id,
        input@.srs_player_ids == input.srs_player_ids@,
        spec@.key == spec.key@,
        spec@.srcs.len() == spec.srcs@.len(),
        forall|i: int|
            0 <= i < spec.srcs@.len() ==> #[trigger] spec@.srcs[i] == spec.srcs@[i]@,
        spec@.enabled == spec.enabled,
{
}

/// Content of a source is its URL, or the content of its input.
pub proof fn law_content_of_src(src: InputSrc, spec: v1::InputSrc)
    ensures
        src matches InputSrc::Remote(remote) ==> src@ == InputSrcView::Remote(remote.url@),
        src matches InputSrc::Local(input) ==> src@ == InputSrcView::Local(input@),
        spec matches v1::InputSrc::RemoteUrl(url) ==> spec@ == v1::InputSrcView::RemoteUrl(url@),
        spec matches v1::InputSrc::LocalInput(input) ==> spec@ == v1::InputSrcView::LocalInput(
            input@,
        ),
{
}

/// Content of a restream is all its fields.
pub proof fn law_content_of_restream(restream: Restream, spec: v1::Restream)
    ensures
        restream@.id == Id::Known(restream.id.0),
        restream@.key == restream.key@,
        restream@.label is Some <==> restream.label is Some,
        restream.label matches Some(label) ==> restream@.label == Some(label@),
        restream@.input == restream.input@,
        restream@.outputs.len() == restream.outputs@.len(),
        forall|i: int|
            0 <= i < restream.outputs@.len() ==> #[trigger] restream@.outputs[i]
                == restream.outputs@[i]@,
        spec@.key == spec.key@,
        spec@.label is Some <==> spec.label is Some,
        spec.label matches Some(label) ==> spec@.label == Some(label@),
        spec@.input == spec.input@,
        spec@.outputs.len() == spec.outputs@.len(),
        forall|i: int|
            0 <= i < spec.outputs@.len() ==> #[trigger] spec@.outputs[i] == spec.outputs@[i]@,
{
}

/// Content of a state is all its fields.
pub proof fn law_content_of_state(state: State, spec: v1::Spec)
    ensures
        state@.password_hash is Some <==> state.password_hash is Some,
        state.password_hash matches Some(hash) ==> state@.password_hash == Some(hash@),
        state@.restreams.len() == state.restreams@.len(),
        forall|i: int|
            0 <= i < state.restreams@.len() ==> #[trigger] state@.restreams[i]
                == state.restreams@[i]@,
        spec@.restreams.len() == spec.restreams@.len(),
        forall|i: int|
            0 <= i < spec.restreams@.len() ==> #[trigger] spec@.restreams[i]
                == spec.restreams@[i]@,
        crate::spec::Spec::V1(spec)@ == spec@,
{
}

/// Mixin which is the expected one has all the fields of it.
pub proof fn law_expected_mixin(mixin: MixinView, expected: MixinView)
    ensures
        mixin.realizes(expected) <==> {
            &&& mixin.id.realizes(expected.id)
            &&& mixin.src == expected.src
            &&& mixin.volume == expected.volume
            &&& mixin.delay == expected.delay
            &&& mixin.status == expected.status
        },
{
}

/// Output which is the expected one has all the fields of it.
pub proof fn law_expected_output(output: OutputView, expected: OutputView)
    ensures
        output.realizes(expected) <==> {
            &&& output.id.realizes(expected.id)
            &&& output.dst == expected.dst
            &&& output.label == expected.label
            &&& output.volume == expected.volume
            &&& output.mixins.len() == expected.mixins.len()
            &&& forall|i: int|
                0 <= i < output.mixins.len() ==> (#[trigger] output.mixins[i]).realizes(
                    expected.mixins[i],
                )
            &&& output.enabled == expected.enabled
            &&& output.status == expected.status
        },
{
    if output.realizes(expected) {
        assert forall|i: int| 0 <= i < output.mixins.len() implies (
        #[trigger] output.mixins[i]).realizes(expected.mixins[i]) by {
            assert(mixin_realizes()(output.mixins[i], expected.mixins[i]));
        }
    }
}

/// Input which is the expected one has all the fields of it.
pub proof fn law_expected_input(input: InputView, expected: InputView)
    ensures
        input.realizes(expected) <==> {
            &&& input.id.realizes(expected.id)
            &&& input.key == expected.key
            &&& input.srcs.len() == expected.srcs.len()
            &&& forall|i: int|
                0 <= i < input.srcs.len() ==> (#[trigger] input.srcs[i]).realizes(
                    expected.srcs[i],
                )
            &&& input.enabled == expected.enabled
            &&& input.status == expected.status
            &&& input.srs_publisher_id == expected.srs_publisher_id
            &&& input.srs_player_ids == expected.srs_player_ids
        },
{
}

/// Source which is the expected one has the same URL, or is the expected input.
pub proof fn law_expected_src(src: InputSrcView, expected: InputSrcView)
    ensures
        src.realizes(expected) <==> {
            ||| src is Remote && expected is Remote && src->Remote_0 == expected->Remote_0
            ||| src is Local && expected is Local && src->Local_0.realizes(expected->Local_0)
        },
{
}

/// Restream which is the expected one has all the fields of it.
pub proof fn law_expected_restream(restream: RestreamView, expected: RestreamView)
    ensures
        restream.realizes(expected) <==> {
            &&& restream.id.realizes(expected.id)
            &&& restream.key == expected.key
            &&& restream.label == expected.label
            &&& restream.input.realizes(expected.input)
            &&& restream.outputs.len() == expected.outputs.len()
            &&& forall|i: int|
                0 <= i < restream.outputs.len() ==> (#[trigger] restream.outputs[i]).realizes(
                    expected.outputs[i],
                )
        },
{
    if restream.realizes(expected) {
        assert forall|i: int| 0 <= i < restream.outputs.len() implies (
        #[trigger] restream.outputs[i]).realizes(expected.outputs[i]) by {
            assert(output_realizes()(restream.outputs[i], expected.outputs[i]));
        }
    }
}

/// State which is the expected one has all the fields of it.
pub proof fn law_expected_state(state: StateView, expected: StateView)
    ensures
        state.realizes(expected) <==> {
            &&& state.password_hash == expected.password_hash
            &&& state.restreams.len() == expected.restreams.len()
            &&& forall|i: int|
                0 <= i < state.restreams.len() ==> (#[trigger] state.restreams[i]).realizes(
                    expected.restreams[i],
                )
        },
{
    if state.realizes(expected) {
        assert forall|i: int| 0 <= i < state.restreams.len() implies (
        #[trigger] state.restreams[i]).realizes(expected.restreams[i]) by {
            assert(restream_realizes()(state.restreams[i], expected.restreams[i]));
        }
    }
}

/// Mixins, outputs and restreams go by their sources, destinations and keys
/// respectively, and by nothing else.
pub proof fn law_identities(
    mixin: MixinView,
    mixin_spec: v1::MixinView,
    output: OutputView,
    output_spec: v1::OutputView,
    restream: RestreamView,
    restream_spec: v1::RestreamView,
    replace: bool,
)
    ensures
        (mixin_rules().same)(mixin, mixin_spec) <==> mixin.src.text == mixin_spec.src.text,
        (mixin_rules().apply)(mixin, mixin_spec) == mixin.applied(mixin_spec),
        (mixin_rules().make)(mixin_spec) == MixinView::fresh(mixin_spec),
        (output_rules(replace).same)(output, output_spec) <==> output.dst.text
            == output_spec.dst.text,
        (output_rules(replace).apply)(output, output_spec) == output.applied(output_spec, replace),
        (output_rules(replace).make)(output_spec) == OutputView::fresh(output_spec),
        (restream_rules(replace).same)(restream, restream_spec) <==> restream.key
            == restream_spec.key,
        (restream_rules(replace).apply)(restream, restream_spec) == restream.applied(
            restream_spec,
            replace,
        ),
        (restream_rules(replace).make)(restream_spec) == RestreamView::fresh(restream_spec),
{
}

/// Sources go by their URLs, if they are remote, or by keys of their inputs, if
/// they are local.
pub proof fn law_identities_of_srcs(src: InputSrcView, spec: v1::InputSrcView)
    ensures
        src.identified_by(spec) <==> {
            ||| src is Remote && spec is RemoteUrl && src->Remote_0.text == spec->RemoteUrl_0.text
            ||| src is Local && spec is LocalInput && src->Local_0.key == spec->LocalInput_0.key
        },
        src_identified()(src, spec) <==> src.identified_by(spec),
        (src_rules().same)(src, spec) <==> src.identified_by(spec),
        (src_rules().apply)(src, spec) == src.applied(spec),
        (src_rules().make)(spec) == InputSrcView::fresh(spec),
{
}

/// New mixin is as it's specified, is offline and has a newly drawn ID.
pub proof fn law_new_mixin(new: v1::MixinView, made: MixinView)
    requires
        made.realizes(MixinView::fresh(new)),
    ensures
        made.src == new.src,
        made.volume == new.volume,
        made.delay == new.delay,
        made.status == Status::Offline,
        made.id.realizes(Id::Fresh),
{
}

/// New output is as it's specified, along with its mixins, is offline and has a
/// newly drawn ID.
pub proof fn law_new_output(new: v1::OutputView, made: OutputView)
    requires
        made.realizes(OutputView::fresh(new)),
    ensures
        made.dst == new.dst,
        made.label == new.label,
        made.volume == new.volume,
        made.enabled == new.enabled,
        made.status == Status::Offline,
        made.id.realizes(Id::Fresh),
        made.mixins.len() == new.mixins.len(),
        forall|i: int|
            0 <= i < new.mixins.len() ==> {
                let mixin = #[trigger] made.mixins[i];
                &&& mixin.src == new.mixins[i].src
                &&& mixin.volume == new.mixins[i].volume
                &&& mixin.delay == new.mixins[i].delay
                &&& mixin.status == Status::Offline
                &&& mixin.id.realizes(Id::Fresh)
            },
{
    law_expected_output(made, OutputView::fresh(new));
    assert forall|i: int| 0 <= i < new.mixins.len() implies {
        let mixin = #[trigger] made.mixins[i];
        &&& mixin.src == new.mixins[i].src
        &&& mixin.volume == new.mixins[i].volume
        &&& mixin.delay == new.mixins[i].delay
        &&& mixin.status == Status::Offline
        &&& mixin.id.realizes(Id::Fresh)
    } by {
        law_new_mixin(new.mixins[i], made.mixins[i]);
    }
}

/// New input is as it's specified, is offline, has a newly drawn ID, and has
/// neither a publisher nor players. Its sources are newly made of the specified
/// ones, at the same places.
pub proof fn law_new_input(new: v1::InputView, made: InputView)
    requires
        made.realizes(InputView::fresh(new)),
    ensures
        made.key == new.key,
        made.enabled == new.enabled,
        made.status == Status::Offline,
        made.srs_publisher_id is None,
        made.srs_player_ids.len() == 0,
        made.id.realizes(Id::Fresh),
        made.exported() == new,
        made.srcs.len() == new.srcs.len(),
        forall|i: int|
            0 <= i < new.srcs.len() ==> match new.srcs[i] {
                v1::InputSrcView::RemoteUrl(url) => #[trigger] made.srcs[i]
                    == InputSrcView::Remote(url),
                v1::InputSrcView::LocalInput(input) => made.srcs[i] matches InputSrcView::Local(a)
                    && a.realizes(InputView::fresh(input)),
            },
{
    let fresh = InputView::fresh(new);
    lemma_fresh_input_exported(new);
    lemma_input_exported_alike(made, fresh);
    assert forall|i: int| 0 <= i < new.srcs.len() implies match new.srcs[i] {
        v1::InputSrcView::RemoteUrl(url) => #[trigger] made.srcs[i] == InputSrcView::Remote(url),
        v1::InputSrcView::LocalInput(input) => made.srcs[i] matches InputSrcView::Local(a)
            && a.realizes(InputView::fresh(input)),
    } by {
        assert(made.srcs[i].realizes(fresh.srcs[i]));
        assert(fresh.srcs[i] == InputSrcView::fresh(new.srcs[i]));
    }
}

/// New restream is as it's specified, and has a newly drawn ID. Its input and
/// outputs are newly made of the specified ones, the latter at the same places.
pub proof fn law_new_restream(new: v1::RestreamView, made: RestreamView)
    requires
        made.realizes(RestreamView::fresh(new)),
    ensures
        made.key == new.key,
        made.label == new.label,
        made.id.realizes(Id::Fresh),
        made.input.realizes(InputView::fresh(new.input)),
        made.outputs.len() == new.outputs.len(),
        forall|i: int|
            0 <= i < new.outputs.len() ==> (#[trigger] made.outputs[i]).realizes(
                OutputView::fresh(new.outputs[i]),
            ),
{
    law_expected_restream(made, RestreamView::fresh(new));
}

/// Mixin becomes as it's specified, while its ID and its status remain.
pub proof fn law_applied_mixin(before: MixinView, new: v1::MixinView)
    ensures
        before.applied(new).src == new.src,
        before.applied(new).volume == new.volume,
        before.applied(new).delay == new.delay,
        before.applied(new).id == before.id,
        before.applied(new).status == before.status,
{
}

/// No matter whether an output is replaced or merged, its destination, its label,
/// its volume and whether it's enabled become as they are specified, while its ID
/// and its status remain.
pub proof fn law_applied_output(
    before: OutputView,
    new: v1::OutputView,
    replace: bool,
    after: OutputView,
)
    requires
        after.realizes(before.applied(new, replace)),
    ensures
        after.dst == new.dst,
        after.label == new.label,
        after.volume == new.volume,
        after.enabled == new.enabled,
        after.status == before.status,
        after.id.realizes(before.id),
{
}

/// Once an output is replaced, its mixins are exactly the specified ones, in the
/// same order.
pub proof fn law_replaced_mixins(before: OutputView, new: v1::OutputView, after: OutputView)
    requires
        after.realizes(before.applied(new, true)),
    ensures
        after.mixins.len() == new.mixins.len(),
        forall|i: int|
            0 <= i < new.mixins.len() ==> {
                let mixin = #[trigger] after.mixins[i];
                &&& mixin.src == new.mixins[i].src
                &&& mixin.volume == new.mixins[i].volume
                &&& mixin.delay == new.mixins[i].delay
            },
{
    let made = before.applied(new, true).mixins;
    lemma_replaced(before.mixins, new.mixins, mixin_rules());
    law_expected_output(after, before.applied(new, true));
    assert forall|i: int| 0 <= i < new.mixins.len() implies {
        let mixin = #[trigger] after.mixins[i];
        &&& mixin.src == new.mixins[i].src
        &&& mixin.volume == new.mixins[i].volume
        &&& mixin.delay == new.mixins[i].delay
    } by {
        assert(after.mixins[i].realizes(made[i]));
        assert(stems_from(made[i], new.mixins[i], mixin_rules()));
        if made[i] != MixinView::fresh(new.mixins[i]) {
            let old = choose|old: MixinView|
                made[i] == #[trigger] (mixin_rules().apply)(old, new.mixins[i]);
            assert(made[i] == old.applied(new.mixins[i]));
        }
    }
}

/// Once an output is merged, each mixin which is specified, provided that no other
/// one with the same source is, has the volume and the delay which are specified.
/// It stands where there has been one with the same source, keeping its ID and its
/// status, or beyond all the mixins there have been.
pub proof fn law_merged_mixin(
    before: OutputView,
    new: v1::OutputView,
    after: OutputView,
    i: int,
) -> (n: int)
    requires
        after.realizes(before.applied(new, false)),
        0 <= i < new.mixins.len(),
        forall|j: int|
            0 <= j < new.mixins.len() && j != i ==> (#[trigger] new.mixins[j]).src.text
                != new.mixins[i].src.text,
    ensures
        0 <= n < after.mixins.len(),
        after.mixins[n].src == new.mixins[i].src,
        after.mixins[n].volume == new.mixins[i].volume,
        after.mixins[n].delay == new.mixins[i].delay,
        n < before.mixins.len() ==> {
            &&& before.mixins[n].src.text == new.mixins[i].src.text
            &&& after.mixins[n].id.realizes(before.mixins[n].id)
            &&& after.mixins[n].status == before.mixins[n].status
        },
        n >= before.mixins.len() ==> {
            &&& after.mixins[n].id.realizes(Id::Fresh)
            &&& after.mixins[n].status == Status::Offline
            &&& forall|k: int|
                0 <= k < before.mixins.len() ==> (#[trigger] before.mixins[k]).src.text
                    != new.mixins[i].src.text
        },
{
    let rules = mixin_rules();
    let (olds, news) = (before.mixins, new.mixins);
    let made = merged(olds, news, rules);
    lemma_mixin_rules();
    lemma_merged_apart(olds, news, rules, i);
    let n = find(made, news[i], rules.same)->0;
    lemma_find(made, news[i], rules.same);
    lemma_find(olds, news[i], rules.same);
    law_expected_output(after, before.applied(new, false));
    assert(after.mixins[n].realizes(made[n]));
    n
}

/// Once an output is merged, its mixins which are not specified are left as they
/// are, at the places they are at.
pub proof fn law_unspecified_mixin(
    before: OutputView,
    new: v1::OutputView,
    after: OutputView,
    n: int,
)
    requires
        after.realizes(before.applied(new, false)),
        0 <= n < before.mixins.len(),
        forall|i: int|
            0 <= i < new.mixins.len() ==> (#[trigger] new.mixins[i]).src.text
                != before.mixins[n].src.text,
    ensures
        n < after.mixins.len(),
        after.mixins[n].src == before.mixins[n].src,
        after.mixins[n].volume == before.mixins[n].volume,
        after.mixins[n].delay == before.mixins[n].delay,
        after.mixins[n].status == before.mixins[n].status,
        after.mixins[n].id.realizes(before.mixins[n].id),
{
    let made = before.applied(new, false).mixins;
    lemma_merged_untouched(before.mixins, new.mixins, mixin_rules(), n);
    law_expected_output(after, before.applied(new, false));
    assert(after.mixins[n].realizes(made[n]));
}

/// No matter whether a restream is replaced, merged or edited, its key and its
/// label become as they are specified, and so do the key of its input and whether
/// that is enabled, while IDs of both and a status of the latter remain.
pub proof fn law_applied_restream(
    before: RestreamView,
    new: v1::RestreamView,
    replace: bool,
    after: RestreamView,
)
    requires
        after.realizes(before.applied(new, replace)),
    ensures
        after.key == new.key,
        after.label == new.label,
        after.id.realizes(before.id),
        after.input.key == new.input.key,
        after.input.enabled == new.input.enabled,
        after.input.id.realizes(before.input.id),
        after.input.status == before.input.status,
        after.input.exported() == new.input,
        after.input.realizes(before.input.applied(new.input)),
{
    crate::laws::exports::law_applied_input_exports_spec(before.input, new.input, after.input);
}

/// Once a restream is replaced, its outputs are exactly the specified ones, in the
/// same order.
pub proof fn law_replaced_outputs(before: RestreamView, new: v1::RestreamView, after: RestreamView)
    requires
        after.realizes(before.applied(new, true)),
    ensures
        after.outputs.len() == new.outputs.len(),
        forall|i: int|
            0 <= i < new.outputs.len() ==> {
                let output = #[trigger] after.outputs[i];
                &&& output.dst == new.outputs[i].dst
                &&& output.label == new.outputs[i].label
                &&& output.volume == new.outputs[i].volume
                &&& output.enabled == new.outputs[i].enabled
                &&& output.mixins.len() == new.outputs[i].mixins.len()
            },
{
    let made = before.applied(new, true).outputs;
    let rules = output_rules(true);
    lemma_replaced(before.outputs, new.outputs, rules);
    law_expected_restream(after, before.applied(new, true));
    assert forall|i: int| 0 <= i < new.outputs.len() implies {
        let output = #[trigger] after.outputs[i];
        &&& output.dst == new.outputs[i].dst
        &&& output.label == new.outputs[i].label
        &&& output.volume == new.outputs[i].volume
        &&& output.enabled == new.outputs[i].enabled
        &&& output.mixins.len() == new.outputs[i].mixins.len()
    } by {
        assert(after.outputs[i].realizes(made[i]));
        assert(stems_from(made[i], new.outputs[i], rules));
        if made[i] == OutputView::fresh(new.outputs[i]) {
            law_new_output(new.outputs[i], after.outputs[i]);
        } else {
            let old = choose|old: OutputView|
                made[i] == #[trigger] (rules.apply)(old, new.outputs[i]);
            assert(made[i] == old.applied(new.outputs[i], true));
            law_replaced_mixins(old, new.outputs[i], after.outputs[i]);
        }
    }
}

/// Once a restream is merged or edited, each output which is specified, provided
/// that no other one with the same destination is, has the label, the volume and
/// whether it's enabled as they are specified. It stands where there has been one
/// with the same destination, keeping its ID and its status, or beyond all the
/// outputs there have been.
pub proof fn law_merged_output(
    before: RestreamView,
    new: v1::RestreamView,
    after: RestreamView,
    i: int,
) -> (n: int)
    requires
        after.realizes(before.applied(new, false)),
        0 <= i < new.outputs.len(),
        forall|j: int|
            0 <= j < new.outputs.len() && j != i ==> (#[trigger] new.outputs[j]).dst.text
                != new.outputs[i].dst.text,
    ensures
        0 <= n < after.outputs.len(),
        after.outputs[n].dst == new.outputs[i].dst,
        after.outputs[n].label == new.outputs[i].label,
        after.outputs[n].volume == new.outputs[i].volume,
        after.outputs[n].enabled == new.outputs[i].enabled,
        n < before.outputs.len() ==> {
            &&& before.outputs[n].dst.text == new.outputs[i].dst.text
            &&& after.outputs[n].id.realizes(before.outputs[n].id)
            &&& after.outputs[n].status == before.outputs[n].status
            &&& after.outputs[n].realizes(before.outputs[n].applied(new.outputs[i], false))
        },
        n >= before.outputs.len() ==> {
            &&& after.outputs[n].realizes(OutputView::fresh(new.outputs[i]))
            &&& forall|k: int|
                0 <= k < before.outputs.len() ==> (#[trigger] before.outputs[k]).dst.text
                    != new.outputs[i].dst.text
        },
{
    let rules = output_rules(false);
    let (olds, news) = (before.outputs, new.outputs);
    let made = merged(olds, news, rules);
    lemma_output_rules(false);
    lemma_merged_apart(olds, news, rules, i);
    let n = find(made, news[i], rules.same)->0;
    lemma_find(made, news[i], rules.same);
    lemma_find(olds, news[i], rules.same);
    law_expected_restream(after, before.applied(new, false));
    assert(after.outputs[n].realizes(made[n]));
    n
}

/// Once a restream is merged or edited, its outputs which are not specified are
/// left as they are, at the places they are at.
pub proof fn law_unspecified_output(
    before: RestreamView,
    new: v1::RestreamView,
    after: RestreamView,
    n: int,
)
    requires
        after.realizes(before.applied(new, false)),
        0 <= n < before.outputs.len(),
        forall|i: int|
            0 <= i < new.outputs.len() ==> (#[trigger] new.outputs[i]).dst.text
                != before.outputs[n].dst.text,
    ensures
        n < after.outputs.len(),
        after.outputs[n].dst == before.outputs[n].dst,
        after.outputs[n].label == before.outputs[n].label,
        after.outputs[n].volume == before.outputs[n].volume,
        after.outputs[n].enabled == before.outputs[n].enabled,
        after.outputs[n].status == before.outputs[n].status,
        after.outputs[n].realizes(before.outputs[n]),
{
    let made = before.applied(new, false).outputs;
    lemma_merged_untouched(before.outputs, new.outputs, output_rules(false), n);
    law_expected_restream(after, before.applied(new, false));
    assert(after.outputs[n].realizes(made[n]));
}

/// Input becomes as it's specified, while its ID and its status remain. Its
/// publisher remains exactly when neither its key has changed, nor sources have
/// appeared or disappeared altogether. Its players remain exactly when its key
/// hasn't changed.
pub proof fn law_applied_input(before: InputView, new: v1::InputView, after: InputView)
    requires
        after.realizes(before.applied(new)),
    ensures
        after.key == new.key,
        after.enabled == new.enabled,
        after.srcs.len() == new.srcs.len(),
        after.id.realizes(before.id),
        after.status == before.status,
        before.key == new.key && (before.srcs.len() == 0 <==> new.srcs.len() == 0)
            ==> after.srs_publisher_id == before.srs_publisher_id,
        before.key != new.key ==> after.srs_publisher_id is None,
        before.srcs.len() == 0 && new.srcs.len() > 0 ==> after.srs_publisher_id is None,
        before.srcs.len() > 0 && new.srcs.len() == 0 ==> after.srs_publisher_id is None,
        before.key == new.key ==> after.srs_player_ids == before.srs_player_ids,
        before.key != new.key ==> after.srs_player_ids.len() == 0,
{
    lemma_replaced_srcs(before.srcs, new.srcs);
    lemma_replaced(before.srcs, new.srcs, src_rules());
}

/// Sources of an input become exactly the specified ones, in the same order.
pub proof fn law_applied_srcs(before: InputView, new: v1::InputView, after: InputView, i: int)
    requires
        after.realizes(before.applied(new)),
        0 <= i < new.srcs.len(),
    ensures
        i < after.srcs.len(),
        match new.srcs[i] {
            v1::InputSrcView::RemoteUrl(url) => after.srcs[i] == InputSrcView::Remote(url),
            v1::InputSrcView::LocalInput(input) => {
                &&& after.srcs[i] is Local
                &&& after.srcs[i]->Local_0.key == input.key
                &&& after.srcs[i]->Local_0.enabled == input.enabled
                &&& after.srcs[i]->Local_0.srcs.len() == input.srcs.len()
                &&& after.srcs[i]->Local_0.exported() == input
            },
        },
{
    law_applied_input(before, new, after);
    crate::laws::exports::law_applied_input_exports_spec(before, new, after);
    lemma_exported_srcs(after);
    assert(after.exported().srcs[i] == after.srcs[i].exported());
    if let InputSrcView::Local(a) = after.srcs[i] {
        lemma_exported_srcs(a);
    }
}

/// Applying a source, a remote one takes the URL which is specified, a local one
/// is brought in line with the specified input, and one of the other kind is newly
/// made.
pub proof fn law_applied_src(before: InputSrcView, new: v1::InputSrcView)
    ensures
        new matches v1::InputSrcView::RemoteUrl(url) ==> before.applied(new)
            == InputSrcView::Remote(url),
        new matches v1::InputSrcView::LocalInput(input) ==> {
            &&& before matches InputSrcView::Local(old) ==> before.applied(new)
                == InputSrcView::Local(old.applied(input))
            &&& before is Remote ==> before.applied(new) == InputSrcView::Local(
                InputView::fresh(input),
            )
        },
        InputSrcView::fresh(new) == match new {
            v1::InputSrcView::RemoteUrl(url) => InputSrcView::Remote(url),
            v1::InputSrcView::LocalInput(input) => InputSrcView::Local(InputView::fresh(input)),
        },
{
}

/// Exporting gives all the fields of items which are specified, at the same
/// places.
pub proof fn law_exported_fields(
    mixin: MixinView,
    output: OutputView,
    restream: RestreamView,
    state: StateView,
)
    ensures
        mixin.exported().src == mixin.src,
        mixin.exported().volume == mixin.volume,
        mixin.exported().delay == mixin.delay,
        output.exported().dst == output.dst,
        output.exported().label == output.label,
        output.exported().volume == output.volume,
        output.exported().enabled == output.enabled,
        output.exported().mixins.len() == output.mixins.len(),
        forall|i: int|
            0 <= i < output.mixins.len() ==> #[trigger] output.exported().mixins[i]
                == output.mixins[i].exported(),
        restream.exported().key == restream.key,
        restream.exported().label == restream.label,
        restream.exported().input == restream.input.exported(),
        restream.exported().outputs.len() == restream.outputs.len(),
        forall|i: int|
            0 <= i < restream.outputs.len() ==> #[trigger] restream.exported().outputs[i]
                == restream.outputs[i].exported(),
        state.exported().restreams.len() == state.restreams.len(),
        forall|i: int|
            0 <= i < state.restreams.len() ==> #[trigger] state.exported().restreams[i]
                == state.restreams[i].exported(),
{
}

/// Exporting an input gives its key, whether it's enabled and all its sources, at
/// the same places.
pub proof fn law_exported_input(input: InputView)
    ensures
        input.exported().key == input.key,
        input.exported().enabled == input.enabled,
        input.exported().srcs.len() == input.srcs.len(),
        forall|i: int|
            0 <= i < input.srcs.len() ==> #[trigger] input.exported().srcs[i]
                == match input.srcs[i] {
                InputSrcView::Remote(url) => v1::InputSrcView::RemoteUrl(url),
                InputSrcView::Local(a) => v1::InputSrcView::LocalInput(a.exported()),
            },
{
    lemma_exported_srcs(input);
}

/// Once a state is replaced, its restreams are exactly the specified ones, in the
/// same order, while its password remains.
pub proof fn law_replaced_restreams(before: StateView, new: v1::SpecView, after: StateView)
    requires
        after.realizes(before.applied(new, true)),
    ensures
        after.password_hash == before.password_hash,
        after.restreams.len() == new.restreams.len(),
        forall|i: int|
            0 <= i < new.restreams.len() ==> {
                let restream = #[trigger] after.restreams[i];
                &&& restream.key == new.restreams[i].key
                &&& restream.label == new.restreams[i].label
                &&& restream.input.exported() == new.restreams[i].input
                &&& restream.outputs.len() == new.restreams[i].outputs.len()
            },
{
    let made = before.applied(new, true).restreams;
    let rules = restream_rules(true);
    lemma_replaced(before.restreams, new.restreams, rules);
    law_expected_state(after, before.applied(new, true));
    assert forall|i: int| 0 <= i < new.restreams.len() implies {
        let restream = #[trigger] after.restreams[i];
        &&& restream.key == new.restreams[i].key
        &&& restream.label == new.restreams[i].label
        &&& restream.input.exported() == new.restreams[i].input
        &&& restream.outputs.len() == new.restreams[i].outputs.len()
    } by {
        assert(after.restreams[i].realizes(made[i]));
        assert(stems_from(made[i], new.restreams[i], rules));
        if made[i] == RestreamView::fresh(new.restreams[i]) {
            law_new_restream(new.restreams[i], after.restreams[i]);
            lemma_fresh_input_exported(new.restreams[i].input);
            lemma_input_exported_alike(
                after.restreams[i].input,
                InputView::fresh(new.restreams[i].input),
            );
        } else {
            let old = choose|old: RestreamView|
                made[i] == #[trigger] (rules.apply)(old, new.restreams[i]);
            assert(made[i] == old.applied(new.restreams[i], true));
            law_applied_restream(old, new.restreams[i], true, after.restreams[i]);
            law_replaced_outputs(old, new.restreams[i], after.restreams[i]);
        }
    }
}

/// Once a state is merged, each restream which is specified, provided that no
/// other one with the same key is, has the label and the input which are
/// specified. It stands where there has been one with the same key, keeping its
/// ID, or beyond all the restreams there have been.
pub proof fn law_merged_restream(
    before: StateView,
    new: v1::SpecView,
    after: StateView,
    i: int,
) -> (n: int)
    requires
        after.realizes(before.applied(new, false)),
        0 <= i < new.restreams.len(),
        forall|j: int|
            0 <= j < new.restreams.len() && j != i ==> (#[trigger] new.restreams[j]).key
                != new.restreams[i].key,
    ensures
        after.password_hash == before.password_hash,
        0 <= n < after.restreams.len(),
        after.restreams[n].key == new.restreams[i].key,
        after.restreams[n].label == new.restreams[i].label,
        after.restreams[n].input.exported() == new.restreams[i].input,
        n < before.restreams.len() ==> {
            &&& before.restreams[n].key == new.restreams[i].key
            &&& after.restreams[n].id.realizes(before.restreams[n].id)
            &&& after.restreams[n].realizes(before.restreams[n].applied(new.restreams[i], false))
        },
        n >= before.restreams.len() ==> {
            &&& after.restreams[n].realizes(RestreamView::fresh(new.restreams[i]))
            &&& forall|k: int|
                0 <= k < before.restreams.len() ==> (#[trigger] before.restreams[k]).key
                    != new.restreams[i].key
        },
{
    let rules = restream_rules(false);
    let (olds, news) = (before.restreams, new.restreams);
    let made = merged(olds, news, rules);
    lemma_restream_rules(false);
    lemma_merged_apart(olds, news, rules, i);
    let n = find(made, news[i], rules.same)->0;
    lemma_find(made, news[i], rules.same);
    lemma_find(olds, news[i], rules.same);
    law_expected_state(after, before.applied(new, false));
    assert(after.restreams[n].realizes(made[n]));
    if n < olds.len() {
        law_applied_restream(olds[n], news[i], false, after.restreams[n]);
    } else {
        lemma_fresh_input_exported(news[i].input);
        lemma_input_exported_alike(after.restreams[n].input, InputView::fresh(news[i].input));
    }
    n
}

/// Once a state is merged, its restreams which are not specified are left as they
/// are, at the places they are at.
pub proof fn law_unspecified_restream(
    before: StateView,
    new: v1::SpecView,
    after: StateView,
    n: int,
)
    requires
        after.realizes(before.applied(new, false)),
        0 <= n < before.restreams.len(),
        forall|i: int|
            0 <= i < new.restreams.len() ==> (#[trigger] new.restreams[i]).key
                != before.restreams[n].key,
    ensures
        n < after.restreams.len(),
        after.restreams[n].key == before.restreams[n].key,
        after.restreams[n].label == before.restreams[n].label,
        after.restreams[n].realizes(before.restreams[n]),
{
    let made = before.applied(new, false).restreams;
    lemma_merged_untouched(before.restreams, new.restreams, restream_rules(false), n);
    law_expected_state(after, before.applied(new, false));
    assert(after.restreams[n].realizes(made[n]));
}

/// Whatever is converted is kept as it is, as the kind it's of.
pub proof fn law_conversions(
    spec: v1::Spec,
    push: PushInput,
    failover: FailoverPushInput,
    pull: PullInput,
    remote: RemoteInputSrc,
    local: Input,
)
    ensures
        forall|any: Spec|
            #[trigger] call_ensures(<Spec as From<v1::Spec>>::from, (spec,), any) ==> any
                == Spec::V1(spec),
        forall|any: spec::Input|
            #[trigger] call_ensures(<spec::Input as From<PushInput>>::from, (push,), any) ==> any
                == spec::Input::Push(push),
        forall|any: spec::Input|
            #[trigger] call_ensures(
                <spec::Input as From<FailoverPushInput>>::from,
                (failover,),
                any,
            ) ==> any == spec::Input::FailoverPush(failover),
        forall|any: spec::Input|
            #[trigger] call_ensures(<spec::Input as From<PullInput>>::from, (pull,), any) ==> any
                == spec::Input::Pull(pull),
        forall|any: InputSrc|
            #[trigger] call_ensures(<InputSrc as From<RemoteInputSrc>>::from, (remote,), any)
                ==> any == InputSrc::Remote(remote),
        forall|any: InputSrc|
            #[trigger] call_ensures(<InputSrc as From<Input>>::from, (local,), any) ==> any
                == InputSrc::Local(local),
{
}

/// The first specified source brings the first one which it identifies in line and
/// takes it, or is newly made if there is none. The others specified follow.
pub proof fn law_specified_src(
    olds: Seq<InputSrcView>,
    n: int,
    new: v1::InputSrcView,
    news: Seq<v1::InputSrcView>,
)
    ensures
        replaced_srcs(olds, seq![]).len() == 0,
        0 <= n < olds.len() && olds[n].identified_by(new) && (forall|i: int|
            0 <= i < n ==> !(#[trigger] olds[i]).identified_by(new)) ==> replaced_srcs(
            olds,
            seq![new] + news,
        ) == seq![olds[n].applied(new)] + replaced_srcs(
            olds.update(n, olds[olds.len() - 1]).subrange(0, olds.len() - 1),
            news,
        ),
        (forall|i: int| 0 <= i < olds.len() ==> !(#[trigger] olds[i]).identified_by(new))
            ==> replaced_srcs(olds, seq![new] + news) == seq![InputSrcView::fresh(new)]
            + replaced_srcs(olds, news),
{
    let all = seq![new] + news;
    assert(all[0] == new);
    assert(all.drop_first() =~= news);
    lemma_find(olds, new, src_identified());
    if 0 <= n < olds.len() && olds[n].identified_by(new) && (forall|i: int|
        0 <= i < n ==> !(#[trigger] olds[i]).identified_by(new)) {
        lemma_found(olds, new, src_identified(), n);
        assert(swap_removed(olds, n) =~= olds.update(n, olds[olds.len() - 1]).subrange(
            0,
            olds.len() - 1,
        ));
    }
    if forall|i: int| 0 <= i < olds.len() ==> !(#[trigger] olds[i]).identified_by(new) {
        lemma_not_found(olds, new, src_identified());
    }
}

} // verus!
