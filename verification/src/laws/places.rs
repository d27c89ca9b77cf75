//! Where operations on a state take place, and what they leave as it is.

use vstd::prelude::*;

use crate::addresses::UrlView;
use crate::ids::{Id, MixinId, OutputId, RestreamId};
use crate::laws::fields::{law_expected_output, law_expected_restream, law_expected_state};
use crate::lists::lemma_find;
use crate::measures::Status;
use crate::names::Label;
use crate::spec::v1;
use crate::state::{outputs_switched, src_view, MixinSrcUrl, State, StateView};
use crate::state::mixin::{mixin_has_id, MixinView};
use crate::state::output::{output_has_id, OutputView};
use crate::state::restream::{restream_has_id, RestreamView};

verus! {

/// Restream is looked up by its ID alone. It's the first one which has it.
pub proof fn law_place_of_restream(state: StateView, id: RestreamId)
    ensures
        state.restream_at(id) matches Some(n) ==> {
            &&& 0 <= n < state.restreams.len()
            &&& state.restreams[n].id == Id::Known(id.0)
            &&& forall|i: int| 0 <= i < n ==> (#[trigger] state.restreams[i]).id != Id::Known(id.0)
        },
        state.restream_at(id) is None ==> forall|i: int|
            0 <= i < state.restreams.len() ==> (#[trigger] state.restreams[i]).id != Id::Known(
                id.0,
            ),
{
    lemma_find(state.restreams, id, restream_has_id());
}

/// Output is looked up by its ID alone, in the restream which is looked up by its
/// one. It's the first one which has it there.
pub proof fn law_place_of_output(state: StateView, id: RestreamId, output_id: OutputId)
    ensures
        state.output_at(id, output_id) matches Some((n, m)) ==> {
            let outputs = state.restreams[n].outputs;
            &&& state.restream_at(id) == Some(n)
            &&& 0 <= m < outputs.len()
            &&& outputs[m].id == Id::Known(output_id.0)
            &&& forall|i: int| 0 <= i < m ==> (#[trigger] outputs[i]).id != Id::Known(output_id.0)
        },
        state.output_at(id, output_id) is None ==> {
            ||| state.restream_at(id) is None
            ||| {
                let outputs = state.restreams[state.restream_at(id)->0].outputs;
                forall|i: int|
                    0 <= i < outputs.len() ==> (#[trigger] outputs[i]).id != Id::Known(output_id.0)
            }
        },
{
    if let Some(n) = state.restream_at(id) {
        lemma_find(state.restreams[n].outputs, output_id, output_has_id());
    }
}

/// Mixin is looked up by its ID alone, in the output which is looked up by its
/// one. It's the first one which has it there.
pub proof fn law_place_of_mixin(
    state: StateView,
    id: RestreamId,
    output_id: OutputId,
    mixin_id: MixinId,
)
    ensures
        state.mixin_at(id, output_id, mixin_id) matches Some((n, m, k)) ==> {
            let mixins = state.restreams[n].outputs[m].mixins;
            &&& state.output_at(id, output_id) == Some((n, m))
            &&& 0 <= k < mixins.len()
            &&& mixins[k].id == Id::Known(mixin_id.0)
            &&& forall|i: int| 0 <= i < k ==> (#[trigger] mixins[i]).id != Id::Known(mixin_id.0)
        },
        state.mixin_at(id, output_id, mixin_id) is None ==> {
            ||| state.output_at(id, output_id) is None
            ||| {
                let (n, m) = state.output_at(id, output_id)->0;
                let mixins = state.restreams[n].outputs[m].mixins;
                forall|i: int|
                    0 <= i < mixins.len() ==> (#[trigger] mixins[i]).id != Id::Known(mixin_id.0)
            }
        },
{
    if let Some((n, m)) = state.output_at(id, output_id) {
        lemma_find(state.restreams[n].outputs[m].mixins, mixin_id, mixin_has_id());
    }
}

/// Restreams, outputs and mixins are removed or looked up by their IDs alone.
pub proof fn law_known_ids(
    restream: RestreamView,
    id: RestreamId,
    output: OutputView,
    output_id: OutputId,
    mixin: MixinView,
    mixin_id: MixinId,
)
    ensures
        restream_has_id()(restream, id) <==> restream.id == Id::Known(id.0),
        output_has_id()(output, output_id) <==> output.id == Id::Known(output_id.0),
        mixin_has_id()(mixin, mixin_id) <==> mixin.id == Id::Known(mixin_id.0),
{
}

/// Substituting a restream affects nothing but it.
pub proof fn law_substituted_restream(state: StateView, n: int, restream: RestreamView)
    requires
        0 <= n < state.restreams.len(),
    ensures
        ({
            let after = state.with_restream(n, restream);
            &&& after.password_hash == state.password_hash
            &&& after.restreams.len() == state.restreams.len()
            &&& after.restreams[n] == restream
            &&& forall|i: int|
                0 <= i < state.restreams.len() && i != n ==> #[trigger] after.restreams[i]
                    == state.restreams[i]
        }),
{
}

/// Substituting restreams affects nothing but them.
pub proof fn law_substituted_restreams(state: StateView, restreams: Seq<RestreamView>)
    ensures
        state.with_restreams(restreams).restreams == restreams,
        state.with_restreams(restreams).password_hash == state.password_hash,
{
}

/// Substituting outputs of a restream affects nothing but them.
pub proof fn law_substituted_outputs(restream: RestreamView, outputs: Seq<OutputView>)
    ensures
        restream.with_outputs(outputs).outputs == outputs,
        restream.with_outputs(outputs).id == restream.id,
        restream.with_outputs(outputs).key == restream.key,
        restream.with_outputs(outputs).label == restream.label,
        restream.with_outputs(outputs).input == restream.input,
{
}

/// Substituting an output affects nothing but it.
pub proof fn law_substituted_output_alone(state: StateView, n: int, m: int, output: OutputView)
    requires
        0 <= n < state.restreams.len(),
        0 <= m < state.restreams[n].outputs.len(),
    ensures
        ({
            let after = state.with_output(n, m, output);
            let (was, now) = (state.restreams[n], after.restreams[n]);
            &&& after.password_hash == state.password_hash
            &&& after.restreams.len() == state.restreams.len()
            &&& forall|i: int|
                0 <= i < state.restreams.len() && i != n ==> #[trigger] after.restreams[i]
                    == state.restreams[i]
            &&& now.id == was.id
            &&& now.key == was.key
            &&& now.label == was.label
            &&& now.input == was.input
            &&& now.outputs.len() == was.outputs.len()
            &&& now.outputs[m] == output
            &&& forall|i: int|
                0 <= i < was.outputs.len() && i != m ==> #[trigger] now.outputs[i]
                    == was.outputs[i]
        }),
{
}

/// Substituting a mixin affects nothing but it.
pub proof fn law_substituted_mixin(output: OutputView, k: int, mixin: MixinView)
    requires
        0 <= k < output.mixins.len(),
    ensures
        ({
            let after = output.with_mixin(k, mixin);
            &&& after.id == output.id
            &&& after.dst == output.dst
            &&& after.label == output.label
            &&& after.volume == output.volume
            &&& after.enabled == output.enabled
            &&& after.status == output.status
            &&& after.mixins.len() == output.mixins.len()
            &&& after.mixins[k] == mixin
            &&& forall|i: int|
                0 <= i < output.mixins.len() && i != k ==> #[trigger] after.mixins[i]
                    == output.mixins[i]
        }),
{
}

/// Key is used exactly when some restream has it, and a destination exactly when
/// some output does.
pub proof fn law_used_identities(
    state: StateView,
    key: Seq<char>,
    id: RestreamId,
    restream: RestreamView,
    dst: Seq<char>,
)
    ensures
        state.uses_key(key) <==> exists|i: int|
            0 <= i < state.restreams.len() && (#[trigger] state.restreams[i]).key == key,
        state.uses_key_besides(key, id) <==> exists|i: int|
            0 <= i < state.restreams.len() && (#[trigger] state.restreams[i]).key == key
                && state.restreams[i].id != Id::Known(id.0),
        restream.has_dst(dst) <==> exists|i: int|
            0 <= i < restream.outputs.len() && (#[trigger] restream.outputs[i]).dst.text == dst,
{
}

/// Switching all outputs, each of them becomes either enabled or disabled, while
/// nothing else of them changes.
pub proof fn law_switched_outputs(outputs: Seq<OutputView>, enabled: bool)
    ensures
        outputs_switched(outputs, enabled).len() == outputs.len(),
        forall|i: int|
            0 <= i < outputs.len() ==> {
                let output = #[trigger] outputs_switched(outputs, enabled)[i];
                &&& output.enabled == enabled
                &&& output.id == outputs[i].id
                &&& output.dst == outputs[i].dst
                &&& output.label == outputs[i].label
                &&& output.volume == outputs[i].volume
                &&& output.mixins == outputs[i].mixins
                &&& output.status == outputs[i].status
            },
{
}

/// Optional label or source is there exactly when it's given, and is the given
/// one.
pub proof fn law_optional(label: Label, src: MixinSrcUrl)
    ensures
        v1::label_view(Some(label)) == Some(label@),
        v1::label_view(None) is None,
        src_view(Some(src)) == Some(src@),
        src_view(None) is None,
{
}

/// Output which is added stands beyond all the outputs there have been, has
/// exactly the given destination and the given label, no matter what it's mixed
/// with, is disabled and offline, and has the original volume.
///
/// It has a mixin exactly when there is something to be mixed with. That has the
/// given source and the original volume, is offline, and is delayed for 3.5
/// seconds if it's a TeamSpeak one, or isn't delayed otherwise.
///
/// Nothing else of the state changes.
pub proof fn law_output_is_added(
    before: StateView,
    n: int,
    dst: UrlView,
    label: Option<Seq<char>>,
    mix_with: Option<UrlView>,
    after: StateView,
)
    requires
        0 <= n < before.restreams.len(),
        after.realizes(
            before.with_restream(
                n,
                before.restreams[n].with_outputs(
                    before.restreams[n].outputs.push(OutputView::added(dst, label, mix_with)),
                ),
            ),
        ),
    ensures
        after.password_hash == before.password_hash,
        after.restreams.len() == before.restreams.len(),
        forall|i: int|
            0 <= i < before.restreams.len() && i != n ==> (#[trigger] after.restreams[i]).realizes(
                before.restreams[i],
            ),
        ({
            let (was, now) = (before.restreams[n], after.restreams[n]);
            let last = now.outputs.last();
            &&& now.id.realizes(was.id)
            &&& now.key == was.key
            &&& now.label == was.label
            &&& now.input.realizes(was.input)
            &&& now.outputs.len() == was.outputs.len() + 1
            &&& forall|i: int|
                0 <= i < was.outputs.len() ==> (#[trigger] now.outputs[i]).realizes(was.outputs[i])
            &&& last.dst == dst
            &&& last.label == label
            &&& !last.enabled
            &&& last.volume == 100
            &&& last.status == Status::Offline
            &&& last.id.realizes(Id::Fresh)
            &&& mix_with is None ==> last.mixins.len() == 0
            &&& mix_with matches Some(src) ==> {
                &&& last.mixins.len() == 1
                &&& last.mixins[0].src == src
                &&& last.mixins[0].volume == 100
                &&& last.mixins[0].status == Status::Offline
                &&& last.mixins[0].id.realizes(Id::Fresh)
                &&& src.scheme == seq!['t', 's'] ==> last.mixins[0].delay == 3_500_000_000
                &&& src.scheme != seq!['t', 's'] ==> last.mixins[0].delay == 0
            }
        }),
{
    let (was, now) = (before.restreams[n], after.restreams[n]);
    let outputs = was.outputs.push(OutputView::added(dst, label, mix_with));
    let expected = before.with_restream(n, was.with_outputs(outputs));
    law_expected_state(after, expected);
    assert(now.realizes(expected.restreams[n]));
    law_expected_restream(now, was.with_outputs(outputs));
    assert forall|i: int| 0 <= i < was.outputs.len() implies (#[trigger] now.outputs[i]).realizes(
        was.outputs[i],
    ) by {
        assert(outputs[i] == was.outputs[i]);
    }
    assert forall|i: int| 0 <= i < before.restreams.len() && i != n implies (
    #[trigger] after.restreams[i]).realizes(before.restreams[i]) by {
        assert(expected.restreams[i] == before.restreams[i]);
    }
    let last = now.outputs[was.outputs.len() as int];
    assert(last.realizes(OutputView::added(dst, label, mix_with)));
    law_expected_output(last, OutputView::added(dst, label, mix_with));
    reveal_strlit("ts");
    assert("ts"@ =~= seq!['t', 's']);
    if let Some(src) = mix_with {
        assert(last.mixins[0].realizes(MixinView::added(src)));
    }
}

/// Once a restream is edited, its key and its label are exactly the specified
/// ones, and its input is exported as the specified one. IDs of both remain.
/// Nothing changes of other restreams.
pub proof fn law_restream_is_edited(
    before: State,
    n: int,
    new: v1::RestreamView,
    after: State,
)
    requires
        0 <= n < before.restreams@.len(),
        after@.realizes(before@.with_restream(n, before@.restreams[n].applied(new, false))),
    ensures
        after@.password_hash == before@.password_hash,
        after.restreams@.len() == before.restreams@.len(),
        after.restreams@[n].key@ == new.key,
        after@.restreams[n].label == new.label,
        after.restreams@[n].input.key@ == new.input.key,
        after.restreams@[n].input.enabled == new.input.enabled,
        after.restreams@[n].input@.exported() == new.input,
        after.restreams@[n].id.0 == before.restreams@[n].id.0,
        after.restreams@[n].input.id.0 == before.restreams@[n].input.id.0,
        forall|i: int|
            0 <= i < before.restreams@.len() && i != n ==> (
            #[trigger] after.restreams@[i]@).realizes(before.restreams@[i]@),
{
    let expected = before@.with_restream(n, before@.restreams[n].applied(new, false));
    law_expected_state(after@, expected);
    assert(after@.restreams[n].realizes(expected.restreams[n]));
    crate::laws::fields::law_applied_restream(
        before@.restreams[n],
        new,
        false,
        after@.restreams[n],
    );
    assert forall|i: int| 0 <= i < before.restreams@.len() && i != n implies (
    #[trigger] after.restreams@[i]@).realizes(before.restreams@[i]@) by {
        assert(after@.restreams[i].realizes(expected.restreams[i]));
    }
}

} // verus!
