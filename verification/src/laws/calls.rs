//! What calls of operations on a state do, whatever it is.

use vstd::prelude::*;

use crate::ids::{Id, MixinId, OutputId, RestreamId};
use crate::laws::edits::law_disabled_input;
use crate::laws::exports::law_replaced_state_exports_spec;
use crate::laws::fields::{
    law_merged_mixin, law_merged_output, law_merged_restream, law_new_output, law_new_restream,
    law_unspecified_mixin,
};
use crate::laws::places::{law_place_of_mixin, law_place_of_output, law_place_of_restream};
use crate::measures::{Delay, Status, Volume};
use crate::names::Label;
use crate::spec::{v1, Spec};
use crate::state::{KeyIsUsed, MixinSrcUrl, OutputDstUrl, State};
use crate::state::input::{law_disabled_at_any_depth, Input};
use crate::state::mixin::MixinView;
use crate::state::output::{output_has_id, Output, OutputView};
use crate::state::restream::{restream_has_id, Restream, RestreamView};

verus! {

/// The first restream with an ID is where it's looked up.
proof fn lemma_restream_place(state: State, id: RestreamId, n: int)
    requires
        0 <= n < state.restreams@.len(),
        state.restreams@[n].id.0 == id.0,
        forall|i: int| 0 <= i < n ==> (#[trigger] state.restreams@[i]).id.0 != id.0,
    ensures
        state@.restream_at(id) == Some(n),
{
    law_place_of_restream(state@, id);
    assert(state@.restreams[n].id == Id::Known(id.0));
    if let Some(k) = state@.restream_at(id) {
        assert(state@.restreams[k].id == Id::Known(state.restreams@[k].id.0));
    }
}

/// The first output with an ID is where it's looked up.
proof fn lemma_output_place(state: State, id: RestreamId, n: int, output_id: OutputId, m: int)
    requires
        0 <= n < state.restreams@.len(),
        state.restreams@[n].id.0 == id.0,
        forall|i: int| 0 <= i < n ==> (#[trigger] state.restreams@[i]).id.0 != id.0,
        0 <= m < state.restreams@[n].outputs@.len(),
        state.restreams@[n].outputs@[m].id.0 == output_id.0,
        forall|i: int|
            0 <= i < m ==> (#[trigger] state.restreams@[n].outputs@[i]).id.0 != output_id.0,
    ensures
        state@.output_at(id, output_id) == Some((n, m)),
{
    lemma_restream_place(state, id, n);
    law_place_of_output(state@, id, output_id);
    let outputs = state@.restreams[n].outputs;
    assert(outputs[m].id == Id::Known(output_id.0));
    if let Some((_, k)) = state@.output_at(id, output_id) {
        assert(outputs[k].id == Id::Known(state.restreams@[n].outputs@[k].id.0));
    }
}

/// The first mixin with an ID is where it's looked up.
proof fn lemma_mixin_place(
    state: State,
    id: RestreamId,
    n: int,
    output_id: OutputId,
    m: int,
    mixin_id: MixinId,
    k: int,
)
    requires
        state@.output_at(id, output_id) == Some((n, m)),
        0 <= n < state.restreams@.len(),
        0 <= m < state.restreams@[n].outputs@.len(),
        0 <= k < state.restreams@[n].outputs@[m].mixins@.len(),
        state.restreams@[n].outputs@[m].mixins@[k].id.0 == mixin_id.0,
        forall|i: int|
            0 <= i < k ==> (#[trigger] state.restreams@[n].outputs@[m].mixins@[i]).id.0
                != mixin_id.0,
    ensures
        state@.mixin_at(id, output_id, mixin_id) == Some((n, m, k)),
{
    law_place_of_mixin(state@, id, output_id, mixin_id);
    let mixins = state@.restreams[n].outputs[m].mixins;
    assert(mixins[k].id == Id::Known(mixin_id.0));
    if let Some((_, _, l)) = state@.mixin_at(id, output_id, mixin_id) {
        assert(mixins[l].id == Id::Known(state.restreams@[n].outputs@[m].mixins@[l].id.0));
    }
}

/// Disabling a restream disables its input and all the inputs under it, at any
/// depth, none of which has either a publisher or players then. It tells whether
/// any of them has been enabled. Nothing else changes.
pub proof fn law_call_disables_restream(
    state: &mut State,
    id: RestreamId,
    n: int,
    disabled: Option<bool>,
)
    requires
        call_ensures(State::disable_restream, (state, id), disabled),
        0 <= n < old(state).restreams@.len(),
        old(state).restreams@[n].id.0 == id.0,
        forall|i: int| 0 <= i < n ==> (#[trigger] old(state).restreams@[i]).id.0 != id.0,
    ensures
        ({
            let (was, now) = (old(state).restreams@[n], final(state).restreams@[n]);
            &&& disabled is Some
            &&& disabled->0 <==> exists|path: Seq<int>|
                (#[trigger] was.input@.at(path)) matches Some(input) && input.enabled
            &&& !now.input.enabled
            &&& now.input.srs_publisher_id is None
            &&& now.input.srs_player_ids@.len() == 0
            &&& forall|path: Seq<int>|
                (#[trigger] now.input@.at(path)) matches Some(input) ==> !input.enabled
                    && input.srs_publisher_id is None && input.srs_player_ids.len() == 0
            &&& now.input.id.0 == was.input.id.0
            &&& now.input.key@ == was.input.key@
            &&& now.input.status == was.input.status
            &&& now.id.0 == was.id.0
            &&& now.key@ == was.key@
            &&& now@.label == was@.label
            &&& now@.outputs == was@.outputs
            &&& final(state)@.password_hash == old(state)@.password_hash
            &&& final(state).restreams@.len() == old(state).restreams@.len()
            &&& forall|i: int|
                #![trigger final(state).restreams@[i]]
                0 <= i < old(state).restreams@.len() && i != n ==> final(state).restreams@[i]@
                    == old(state).restreams@[i]@
        }),
{
    lemma_restream_place(*old(state), id, n);
    lemma_others_remain(*old(state), *final(state), n);
    let (was, now) = (old(state)@.restreams[n], final(state)@.restreams[n]);
    assert(now == RestreamView { input: was.input.turned_off(), ..was });
}

/// Enabling a restream enables its input and all the inputs under it, at any
/// depth. It tells whether any of them has been disabled. Nothing else changes.
pub proof fn law_call_enables_restream(
    state: &mut State,
    id: RestreamId,
    n: int,
    enabled: Option<bool>,
)
    requires
        call_ensures(State::enable_restream, (state, id), enabled),
        0 <= n < old(state).restreams@.len(),
        old(state).restreams@[n].id.0 == id.0,
        forall|i: int| 0 <= i < n ==> (#[trigger] old(state).restreams@[i]).id.0 != id.0,
    ensures
        ({
            let (was, now) = (old(state).restreams@[n], final(state).restreams@[n]);
            &&& enabled is Some
            &&& enabled->0 <==> exists|path: Seq<int>|
                (#[trigger] was.input@.at(path)) matches Some(input) && !input.enabled
            &&& now.input.enabled
            &&& forall|path: Seq<int>|
                (#[trigger] now.input@.at(path)) matches Some(input) ==> input.enabled
            &&& now.input.srs_publisher_id == was.input.srs_publisher_id
            &&& now.input.srs_player_ids@ == was.input.srs_player_ids@
            &&& now.input.id.0 == was.input.id.0
            &&& now.input.key@ == was.input.key@
            &&& now.input.status == was.input.status
            &&& now.id.0 == was.id.0
            &&& now.key@ == was.key@
            &&& now@.label == was@.label
            &&& now@.outputs == was@.outputs
            &&& final(state)@.password_hash == old(state)@.password_hash
            &&& final(state).restreams@.len() == old(state).restreams@.len()
            &&& forall|i: int|
                #![trigger final(state).restreams@[i]]
                0 <= i < old(state).restreams@.len() && i != n ==> final(state).restreams@[i]@
                    == old(state).restreams@[i]@
        }),
{
    lemma_restream_place(*old(state), id, n);
    lemma_others_remain(*old(state), *final(state), n);
    let (was, now) = (old(state)@.restreams[n], final(state)@.restreams[n]);
    assert(now == RestreamView { input: was.input.turned_on(), ..was });
}

/// Restreams but the substituted one are the same.
proof fn lemma_others_remain(before: State, after: State, n: int)
    requires
        0 <= n < before.restreams@.len(),
        exists|restream: RestreamView| after@ == #[trigger] before@.with_restream(n, restream),
    ensures
        after@.password_hash == before@.password_hash,
        after.restreams@.len() == before.restreams@.len(),
        forall|i: int|
            0 <= i < before.restreams@.len() && i != n ==> #[trigger] after.restreams@[i]@
                == before.restreams@[i]@,
        before.restreams@[n]@ == before@.restreams[n],
        after.restreams@[n]@ == after@.restreams[n],
{
    assert(after@.restreams.len() == after.restreams@.len());
    assert forall|i: int|
        0 <= i < before.restreams@.len() && i != n implies #[trigger] after.restreams@[i]@
        == before.restreams@[i]@ by {
        assert(after@.restreams[i] == before@.restreams[i]);
    }
}

/// Enabling an output enables the first one with its ID, and tells whether it hasn't
/// been so. Nothing else changes.
pub proof fn law_call_enables_output(
    state: &mut State,
    id: RestreamId,
    n: int,
    output_id: OutputId,
    m: int,
    changed: Option<bool>,
)
    requires
        call_ensures(State::enable_output, (state, id, output_id), changed),
        0 <= n < old(state).restreams@.len(),
        old(state).restreams@[n].id.0 == id.0,
        forall|i: int| 0 <= i < n ==> (#[trigger] old(state).restreams@[i]).id.0 != id.0,
        0 <= m < old(state).restreams@[n].outputs@.len(),
        old(state).restreams@[n].outputs@[m].id.0 == output_id.0,
        forall|i: int|
            0 <= i < m ==> (#[trigger] old(state).restreams@[n].outputs@[i]).id.0 != output_id.0,
    ensures
        ({
            let (was, now) = (old(state).restreams@[n], final(state).restreams@[n]);
            &&& changed == Some(!was.outputs@[m].enabled)
            &&& now.outputs@[m].enabled == true
            &&& now.outputs@[m].id.0 == was.outputs@[m].id.0
            &&& now.outputs@[m].dst@ == was.outputs@[m].dst@
            &&& now.outputs@[m]@.label == was.outputs@[m]@.label
            &&& now.outputs@[m].volume@ == was.outputs@[m].volume@
            &&& now.outputs@[m]@.mixins == was.outputs@[m]@.mixins
            &&& now.outputs@[m].status == was.outputs@[m].status
            &&& now.outputs@.len() == was.outputs@.len()
            &&& forall|i: int|
                0 <= i < was.outputs@.len() && i != m ==> #[trigger] now.outputs@[i]@
                    == was.outputs@[i]@
            &&& now.id.0 == was.id.0
            &&& now.key@ == was.key@
            &&& now@.label == was@.label
            &&& now.input@ == was.input@
            &&& final(state)@.password_hash == old(state)@.password_hash
            &&& final(state).restreams@.len() == old(state).restreams@.len()
            &&& forall|i: int|
                #![trigger final(state).restreams@[i]]
                0 <= i < old(state).restreams@.len() && i != n ==> final(state).restreams@[i]@
                    == old(state).restreams@[i]@
        }),
{
    lemma_output_place(*old(state), id, n, output_id, m);
    lemma_other_outputs_remain(*old(state), *final(state), n, m);
    let (was, now) = (old(state)@.restreams[n], final(state)@.restreams[n]);
    assert(now.outputs[m] == OutputView { enabled: true, ..was.outputs[m] });
}

/// Enabling all outputs of a restream enables each of them, and tells whether any of
/// them hasn't been so. Nothing else changes.
pub proof fn law_call_enables_all_outputs(
    state: &mut State,
    id: RestreamId,
    n: int,
    changed: Option<bool>,
)
    requires
        call_ensures(State::enable_all_outputs, (state, id), changed),
        0 <= n < old(state).restreams@.len(),
        old(state).restreams@[n].id.0 == id.0,
        forall|i: int| 0 <= i < n ==> (#[trigger] old(state).restreams@[i]).id.0 != id.0,
    ensures
        ({
            let (was, now) = (old(state).restreams@[n], final(state).restreams@[n]);
            &&& changed is Some
            &&& changed->0 <==> exists|i: int|
                0 <= i < was.outputs@.len() && !(#[trigger] was.outputs@[i]).enabled
            &&& now.outputs@.len() == was.outputs@.len()
            &&& forall|i: int|
                0 <= i < was.outputs@.len() ==> {
                    let output = #[trigger] now.outputs@[i];
                    &&& output.enabled == true
                    &&& output@ == OutputView { enabled: output.enabled, ..was.outputs@[i]@ }
                }
            &&& now.id.0 == was.id.0
            &&& now.key@ == was.key@
            &&& now@.label == was@.label
            &&& now.input@ == was.input@
            &&& final(state)@.password_hash == old(state)@.password_hash
            &&& final(state).restreams@.len() == old(state).restreams@.len()
            &&& forall|i: int|
                #![trigger final(state).restreams@[i]]
                0 <= i < old(state).restreams@.len() && i != n ==> final(state).restreams@[i]@
                    == old(state).restreams@[i]@
        }),
{
    lemma_restream_place(*old(state), id, n);
    lemma_others_remain(*old(state), *final(state), n);
    let (was, now) = (old(state)@.restreams[n], final(state)@.restreams[n]);
    let outputs = old(state).restreams@[n].outputs@;
    assert(now.outputs.len() == was.outputs.len());
    assert forall|i: int| 0 <= i < outputs.len() implies was.outputs[i].enabled
        == (#[trigger] outputs[i]).enabled by {}
    if exists|i: int| 0 <= i < outputs.len() && !(#[trigger] outputs[i]).enabled {
        let i = choose|i: int| 0 <= i < outputs.len() && !(#[trigger] outputs[i]).enabled;
        assert(!was.outputs[i].enabled);
    }
    assert forall|i: int| 0 <= i < outputs.len() implies {
        let output = #[trigger] final(state).restreams@[n].outputs@[i];
        &&& output.enabled == true
        &&& output@ == OutputView { enabled: output.enabled, ..outputs[i]@ }
    } by {
        assert(now.outputs[i] == OutputView { enabled: true, ..was.outputs[i] });
    }
}

/// Disabling an output disables the first one with its ID, and tells whether it hasn't
/// been so. Nothing else changes.
pub proof fn law_call_disables_output(
    state: &mut State,
    id: RestreamId,
    n: int,
    output_id: OutputId,
    m: int,
    changed: Option<bool>,
)
    requires
        call_ensures(State::disable_output, (state, id, output_id), changed),
        0 <= n < old(state).restreams@.len(),
        old(state).restreams@[n].id.0 == id.0,
        forall|i: int| 0 <= i < n ==> (#[trigger] old(state).restreams@[i]).id.0 != id.0,
        0 <= m < old(state).restreams@[n].outputs@.len(),
        old(state).restreams@[n].outputs@[m].id.0 == output_id.0,
        forall|i: int|
            0 <= i < m ==> (#[trigger] old(state).restreams@[n].outputs@[i]).id.0 != output_id.0,
    ensures
        ({
            let (was, now) = (old(state).restreams@[n], final(state).restreams@[n]);
            &&& changed == Some(was.outputs@[m].enabled)
            &&& now.outputs@[m].enabled == false
            &&& now.outputs@[m].id.0 == was.outputs@[m].id.0
            &&& now.outputs@[m].dst@ == was.outputs@[m].dst@
            &&& now.outputs@[m]@.label == was.outputs@[m]@.label
            &&& now.outputs@[m].volume@ == was.outputs@[m].volume@
            &&& now.outputs@[m]@.mixins == was.outputs@[m]@.mixins
            &&& now.outputs@[m].status == was.outputs@[m].status
            &&& now.outputs@.len() == was.outputs@.len()
            &&& forall|i: int|
                0 <= i < was.outputs@.len() && i != m ==> #[trigger] now.outputs@[i]@
                    == was.outputs@[i]@
            &&& now.id.0 == was.id.0
            &&& now.key@ == was.key@
            &&& now@.label == was@.label
            &&& now.input@ == was.input@
            &&& final(state)@.password_hash == old(state)@.password_hash
            &&& final(state).restreams@.len() == old(state).restreams@.len()
            &&& forall|i: int|
                #![trigger final(state).restreams@[i]]
                0 <= i < old(state).restreams@.len() && i != n ==> final(state).restreams@[i]@
                    == old(state).restreams@[i]@
        }),
{
    lemma_output_place(*old(state), id, n, output_id, m);
    lemma_other_outputs_remain(*old(state), *final(state), n, m);
    let (was, now) = (old(state)@.restreams[n], final(state)@.restreams[n]);
    assert(now.outputs[m] == OutputView { enabled: false, ..was.outputs[m] });
}

/// Disabling all outputs of a restream disables each of them, and tells whether any of
/// them hasn't been so. Nothing else changes.
pub proof fn law_call_disables_all_outputs(
    state: &mut State,
    id: RestreamId,
    n: int,
    changed: Option<bool>,
)
    requires
        call_ensures(State::disable_all_outputs, (state, id), changed),
        0 <= n < old(state).restreams@.len(),
        old(state).restreams@[n].id.0 == id.0,
        forall|i: int| 0 <= i < n ==> (#[trigger] old(state).restreams@[i]).id.0 != id.0,
    ensures
        ({
            let (was, now) = (old(state).restreams@[n], final(state).restreams@[n]);
            &&& changed is Some
            &&& changed->0 <==> exists|i: int|
                0 <= i < was.outputs@.len() && (#[trigger] was.outputs@[i]).enabled
            &&& now.outputs@.len() == was.outputs@.len()
            &&& forall|i: int|
                0 <= i < was.outputs@.len() ==> {
                    let output = #[trigger] now.outputs@[i];
                    &&& output.enabled == false
                    &&& output@ == OutputView { enabled: output.enabled, ..was.outputs@[i]@ }
                }
            &&& now.id.0 == was.id.0
            &&& now.key@ == was.key@
            &&& now@.label == was@.label
            &&& now.input@ == was.input@
            &&& final(state)@.password_hash == old(state)@.password_hash
            &&& final(state).restreams@.len() == old(state).restreams@.len()
            &&& forall|i: int|
                #![trigger final(state).restreams@[i]]
                0 <= i < old(state).restreams@.len() && i != n ==> final(state).restreams@[i]@
                    == old(state).restreams@[i]@
        }),
{
    lemma_restream_place(*old(state), id, n);
    lemma_others_remain(*old(state), *final(state), n);
    let (was, now) = (old(state)@.restreams[n], final(state)@.restreams[n]);
    let outputs = old(state).restreams@[n].outputs@;
    assert(now.outputs.len() == was.outputs.len());
    assert forall|i: int| 0 <= i < outputs.len() implies was.outputs[i].enabled
        == (#[trigger] outputs[i]).enabled by {}
    if exists|i: int| 0 <= i < outputs.len() && (#[trigger] outputs[i]).enabled {
        let i = choose|i: int| 0 <= i < outputs.len() && (#[trigger] outputs[i]).enabled;
        assert(was.outputs[i].enabled);
    }
    assert forall|i: int| 0 <= i < outputs.len() implies {
        let output = #[trigger] final(state).restreams@[n].outputs@[i];
        &&& output.enabled == false
        &&& output@ == OutputView { enabled: output.enabled, ..outputs[i]@ }
    } by {
        assert(now.outputs[i] == OutputView { enabled: false, ..was.outputs[i] });
    }
}

/// Tuning a volume of an output sets it to exactly the given one, and tells whether
/// it has been another one. Nothing else changes.
pub proof fn law_call_tunes_volume_of_output(
    state: &mut State,
    id: RestreamId,
    n: int,
    output_id: OutputId,
    m: int,
    volume: Volume,
    tuned: Option<bool>,
)
    requires
        call_ensures(State::tune_volume, (state, id, output_id, None, volume), tuned),
        0 <= n < old(state).restreams@.len(),
        old(state).restreams@[n].id.0 == id.0,
        forall|i: int| 0 <= i < n ==> (#[trigger] old(state).restreams@[i]).id.0 != id.0,
        0 <= m < old(state).restreams@[n].outputs@.len(),
        old(state).restreams@[n].outputs@[m].id.0 == output_id.0,
        forall|i: int|
            0 <= i < m ==> (#[trigger] old(state).restreams@[n].outputs@[i]).id.0 != output_id.0,
    ensures
        ({
            let (was, now) = (old(state).restreams@[n], final(state).restreams@[n]);
            &&& tuned == Some(was.outputs@[m].volume@ != volume@)
            &&& now.outputs@[m].volume@ == volume@
            &&& now.outputs@[m].id.0 == was.outputs@[m].id.0
            &&& now.outputs@[m].dst@ == was.outputs@[m].dst@
            &&& now.outputs@[m]@.label == was.outputs@[m]@.label
            &&& now.outputs@[m]@.mixins == was.outputs@[m]@.mixins
            &&& now.outputs@[m].enabled == was.outputs@[m].enabled
            &&& now.outputs@[m].status == was.outputs@[m].status
            &&& now.outputs@.len() == was.outputs@.len()
            &&& forall|i: int|
                0 <= i < was.outputs@.len() && i != m ==> #[trigger] now.outputs@[i]@
                    == was.outputs@[i]@
            &&& now.id.0 == was.id.0
            &&& now.key@ == was.key@
            &&& now@.label == was@.label
            &&& now.input@ == was.input@
            &&& final(state)@.password_hash == old(state)@.password_hash
            &&& final(state).restreams@.len() == old(state).restreams@.len()
            &&& forall|i: int|
                #![trigger final(state).restreams@[i]]
                0 <= i < old(state).restreams@.len() && i != n ==> final(state).restreams@[i]@
                    == old(state).restreams@[i]@
        }),
{
    lemma_output_place(*old(state), id, n, output_id, m);
    lemma_other_outputs_remain(*old(state), *final(state), n, m);
    let (was, now) = (old(state)@.restreams[n], final(state)@.restreams[n]);
    assert(now.outputs[m] == OutputView { volume: volume@, ..was.outputs[m] });
}

/// Tuning a volume of a mixin sets it to exactly the given one, and tells whether
/// it has been another one. Nothing else changes.
pub proof fn law_call_tunes_volume_of_mixin(
    state: &mut State,
    id: RestreamId,
    n: int,
    output_id: OutputId,
    m: int,
    mixin_id: MixinId,
    k: int,
    volume: Volume,
    tuned: Option<bool>,
)
    requires
        call_ensures(State::tune_volume, (state, id, output_id, Some(mixin_id), volume), tuned),
        0 <= n < old(state).restreams@.len(),
        old(state).restreams@[n].id.0 == id.0,
        forall|i: int| 0 <= i < n ==> (#[trigger] old(state).restreams@[i]).id.0 != id.0,
        0 <= m < old(state).restreams@[n].outputs@.len(),
        old(state).restreams@[n].outputs@[m].id.0 == output_id.0,
        forall|i: int|
            0 <= i < m ==> (#[trigger] old(state).restreams@[n].outputs@[i]).id.0 != output_id.0,
        0 <= k < old(state).restreams@[n].outputs@[m].mixins@.len(),
        old(state).restreams@[n].outputs@[m].mixins@[k].id.0 == mixin_id.0,
        forall|i: int|
            0 <= i < k ==> (#[trigger] old(state).restreams@[n].outputs@[m].mixins@[i]).id.0
                != mixin_id.0,
    ensures
        ({
            let (was, now) = (old(state).restreams@[n], final(state).restreams@[n]);
            &&& tuned == Some(was.outputs@[m].mixins@[k].volume@ != volume@)
            &&& now.outputs@[m].mixins@[k].volume@ == volume@
            &&& now.outputs@[m].mixins@[k].id.0 == was.outputs@[m].mixins@[k].id.0
            &&& now.outputs@[m].mixins@[k].src@ == was.outputs@[m].mixins@[k].src@
            &&& now.outputs@[m].mixins@[k].delay@
                == was.outputs@[m].mixins@[k].delay@
            &&& now.outputs@[m].mixins@[k].status
                == was.outputs@[m].mixins@[k].status
            &&& now.outputs@[m].mixins@.len() == was.outputs@[m].mixins@.len()
            &&& forall|i: int|
                0 <= i < was.outputs@[m].mixins@.len() && i != k
                    ==> #[trigger] now.outputs@[m].mixins@[i]@ == was.outputs@[m].mixins@[i]@
            &&& now.outputs@[m].id.0 == was.outputs@[m].id.0
            &&& now.outputs@[m].dst@ == was.outputs@[m].dst@
            &&& now.outputs@[m]@.label == was.outputs@[m]@.label
            &&& now.outputs@[m].volume@ == was.outputs@[m].volume@
            &&& now.outputs@[m].enabled == was.outputs@[m].enabled
            &&& now.outputs@[m].status == was.outputs@[m].status
            &&& now.outputs@.len() == was.outputs@.len()
            &&& forall|i: int|
                0 <= i < was.outputs@.len() && i != m ==> #[trigger] now.outputs@[i]@
                    == was.outputs@[i]@
            &&& now.id.0 == was.id.0
            &&& now.key@ == was.key@
            &&& now@.label == was@.label
            &&& now.input@ == was.input@
            &&& final(state)@.password_hash == old(state)@.password_hash
            &&& final(state).restreams@.len() == old(state).restreams@.len()
            &&& forall|i: int|
                #![trigger final(state).restreams@[i]]
                0 <= i < old(state).restreams@.len() && i != n ==> final(state).restreams@[i]@
                    == old(state).restreams@[i]@
        }),
{
    lemma_output_place(*old(state), id, n, output_id, m);
    lemma_mixin_place(*old(state), id, n, output_id, m, mixin_id, k);
    lemma_other_outputs_remain(*old(state), *final(state), n, m);
    let (was, now) = (old(state)@.restreams[n].outputs[m], final(state)@.restreams[n].outputs[m]);
    let mixin = MixinView { volume: volume@, ..was.mixins[k] };
    assert(now == was.with_mixin(k, mixin));
    let made = final(state).restreams@[n].outputs@[m];
    assert(made@ == now);
    assert(made.mixins@.len() == now.mixins.len());
    assert(made.mixins@[k]@ == now.mixins[k]);
    assert forall|i: int| 0 <= i < was.mixins.len() && i != k implies #[trigger] made.mixins@[i]@
        == old(state).restreams@[n].outputs@[m].mixins@[i]@ by {
        assert(now.mixins[i] == was.mixins[i]);
    }
}

/// Tuning a delay of a mixin sets it to exactly the given one, and tells whether
/// it has been another one. Nothing else changes.
pub proof fn law_call_tunes_delay_of_mixin(
    state: &mut State,
    id: RestreamId,
    n: int,
    output_id: OutputId,
    m: int,
    mixin_id: MixinId,
    k: int,
    delay: Delay,
    tuned: Option<bool>,
)
    requires
        call_ensures(State::tune_delay, (state, id, output_id, mixin_id, delay), tuned),
        0 <= n < old(state).restreams@.len(),
        old(state).restreams@[n].id.0 == id.0,
        forall|i: int| 0 <= i < n ==> (#[trigger] old(state).restreams@[i]).id.0 != id.0,
        0 <= m < old(state).restreams@[n].outputs@.len(),
        old(state).restreams@[n].outputs@[m].id.0 == output_id.0,
        forall|i: int|
            0 <= i < m ==> (#[trigger] old(state).restreams@[n].outputs@[i]).id.0 != output_id.0,
        0 <= k < old(state).restreams@[n].outputs@[m].mixins@.len(),
        old(state).restreams@[n].outputs@[m].mixins@[k].id.0 == mixin_id.0,
        forall|i: int|
            0 <= i < k ==> (#[trigger] old(state).restreams@[n].outputs@[m].mixins@[i]).id.0
                != mixin_id.0,
    ensures
        ({
            let (was, now) = (old(state).restreams@[n], final(state).restreams@[n]);
            &&& tuned == Some(was.outputs@[m].mixins@[k].delay@ != delay@)
            &&& now.outputs@[m].mixins@[k].delay@ == delay@
            &&& now.outputs@[m].mixins@[k].id.0 == was.outputs@[m].mixins@[k].id.0
            &&& now.outputs@[m].mixins@[k].src@ == was.outputs@[m].mixins@[k].src@
            &&& now.outputs@[m].mixins@[k].volume@ == was.outputs@[m].mixins@[k].volume@
            &&& now.outputs@[m].mixins@[k].status
                == was.outputs@[m].mixins@[k].status
            &&& now.outputs@[m].mixins@.len() == was.outputs@[m].mixins@.len()
            &&& forall|i: int|
                0 <= i < was.outputs@[m].mixins@.len() && i != k
                    ==> #[trigger] now.outputs@[m].mixins@[i]@ == was.outputs@[m].mixins@[i]@
            &&& now.outputs@[m].id.0 == was.outputs@[m].id.0
            &&& now.outputs@[m].dst@ == was.outputs@[m].dst@
            &&& now.outputs@[m]@.label == was.outputs@[m]@.label
            &&& now.outputs@[m].volume@ == was.outputs@[m].volume@
            &&& now.outputs@[m].enabled == was.outputs@[m].enabled
            &&& now.outputs@[m].status == was.outputs@[m].status
            &&& now.outputs@.len() == was.outputs@.len()
            &&& forall|i: int|
                0 <= i < was.outputs@.len() && i != m ==> #[trigger] now.outputs@[i]@
                    == was.outputs@[i]@
            &&& now.id.0 == was.id.0
            &&& now.key@ == was.key@
            &&& now@.label == was@.label
            &&& now.input@ == was.input@
            &&& final(state)@.password_hash == old(state)@.password_hash
            &&& final(state).restreams@.len() == old(state).restreams@.len()
            &&& forall|i: int|
                #![trigger final(state).restreams@[i]]
                0 <= i < old(state).restreams@.len() && i != n ==> final(state).restreams@[i]@
                    == old(state).restreams@[i]@
        }),
{
    lemma_output_place(*old(state), id, n, output_id, m);
    lemma_mixin_place(*old(state), id, n, output_id, m, mixin_id, k);
    lemma_other_outputs_remain(*old(state), *final(state), n, m);
    let (was, now) = (old(state)@.restreams[n].outputs[m], final(state)@.restreams[n].outputs[m]);
    let mixin = MixinView { delay: delay@, ..was.mixins[k] };
    assert(now == was.with_mixin(k, mixin));
    let made = final(state).restreams@[n].outputs@[m];
    assert(made@ == now);
    assert(made.mixins@.len() == now.mixins.len());
    assert(made.mixins@[k]@ == now.mixins[k]);
    assert forall|i: int| 0 <= i < was.mixins.len() && i != k implies #[trigger] made.mixins@[i]@
        == old(state).restreams@[n].outputs@[m].mixins@[i]@ by {
        assert(now.mixins[i] == was.mixins[i]);
    }
}

/// Adding an output puts it beyond all the outputs of the restream, with exactly
/// the given destination and the given label, no matter what it's mixed with. It's
/// disabled and offline, and has the original volume. Nothing is added if there is
/// an output with such destination. Nothing else changes.
pub proof fn law_call_adds_output(
    state: &mut State,
    id: RestreamId,
    n: int,
    dst: OutputDstUrl,
    label: Option<Label>,
    mix_with: Option<MixinSrcUrl>,
    added: Option<bool>,
)
    requires
        call_ensures(State::add_new_output, (state, id, dst, label, mix_with), added),
        0 <= n < old(state).restreams@.len(),
        old(state).restreams@[n].id.0 == id.0,
        forall|i: int| 0 <= i < n ==> (#[trigger] old(state).restreams@[i]).id.0 != id.0,
    ensures
        ({
            let (was, now) = (old(state).restreams@[n], final(state).restreams@[n]);
            let last = now.outputs@.last();
            &&& added is Some
            &&& !added->0 <==> exists|i: int|
                0 <= i < was.outputs@.len() && (#[trigger] was.outputs@[i]).dst@.text == dst@.text
            &&& !added->0 ==> final(state)@ == old(state)@
            &&& added->0 ==> {
                &&& now.outputs@.len() == was.outputs@.len() + 1
                &&& forall|i: int|
                    0 <= i < was.outputs@.len() ==> #[trigger] now.outputs@[i]@
                        == was.outputs@[i]@
                &&& last.dst@ == dst@
                &&& last.label is Some <==> label is Some
                &&& label is Some ==> last.label->0@ == label->0@
                &&& !last.enabled
                &&& last.volume@ == 100
                &&& last.status == Status::Offline
                &&& mix_with is None ==> last.mixins@.len() == 0
                &&& mix_with is Some ==> {
                    &&& last.mixins@.len() == 1
                    &&& last.mixins@[0].src@ == mix_with->0@
                    &&& last.mixins@[0].volume@ == 100
                    &&& last.mixins@[0].status == Status::Offline
                    &&& last.mixins@[0].delay@ == if mix_with->0@.scheme == seq!['t', 's'] {
                        3_500_000_000nat
                    } else {
                        0
                    }
                }
            }
            &&& now.id.0 == was.id.0
            &&& now.key@ == was.key@
            &&& now@.label == was@.label
            &&& now.input@ == was.input@
            &&& final(state)@.password_hash == old(state)@.password_hash
            &&& final(state).restreams@.len() == old(state).restreams@.len()
            &&& forall|i: int|
                #![trigger final(state).restreams@[i]]
                0 <= i < old(state).restreams@.len() && i != n ==> final(state).restreams@[i]@
                    == old(state).restreams@[i]@
        }),
{
    lemma_restream_place(*old(state), id, n);
    reveal_strlit("ts");
    assert("ts"@ =~= seq!['t', 's']);
    let (was, now) = (old(state).restreams@[n], final(state).restreams@[n]);
    assert forall|i: int| 0 <= i < was.outputs@.len() implies was@.outputs[i].dst.text
        == (#[trigger] was.outputs@[i]).dst@.text by {}
    assert(old(state)@.restreams[n] == was@);
    if exists|i: int|
        0 <= i < was.outputs@.len() && (#[trigger] was.outputs@[i]).dst@.text == dst@.text {
        let i = choose|i: int|
            0 <= i < was.outputs@.len() && (#[trigger] was.outputs@[i]).dst@.text == dst@.text;
        assert(was@.outputs[i].dst.text == dst@.text);
    }
    if added == Some(true) {
        assert forall|i: int| 0 <= i < was.outputs@.len() implies #[trigger] now.outputs@[i]@
            == was.outputs@[i]@ by {
            assert(now.outputs@.drop_last()[i] == now.outputs@[i]);
        }
    } else {
        lemma_same_restreams(*old(state), *final(state));
    }
}

/// Editing a restream makes its key and its label exactly the specified ones, and
/// makes its input be exported as the specified one. IDs of both remain. If another
/// restream has such key, then nothing is edited, and the key is told. Nothing else
/// changes.
pub proof fn law_call_edits_restream(
    state: &mut State,
    id: RestreamId,
    n: int,
    spec: v1::Restream,
    edited: Result<Option<()>, KeyIsUsed>,
)
    requires
        call_ensures(State::edit_restream, (state, id, spec), edited),
        0 <= n < old(state).restreams@.len(),
        old(state).restreams@[n].id.0 == id.0,
        forall|i: int| 0 <= i < n ==> (#[trigger] old(state).restreams@[i]).id.0 != id.0,
    ensures
        edited is Err <==> exists|i: int|
            0 <= i < old(state).restreams@.len() && (#[trigger] old(state).restreams@[i]).id.0
                != id.0 && old(state).restreams@[i].key@ == spec.key@,
        edited is Err ==> edited->Err_0.key@ == spec.key@ && final(state)@ == old(state)@,
        edited is Ok ==> {
            let (was, now) = (old(state).restreams@[n], final(state).restreams@[n]);
            &&& edited->Ok_0 is Some
            &&& now.key@ == spec.key@
            &&& now.label is Some <==> spec.label is Some
            &&& spec.label is Some ==> now.label->0@ == spec.label->0@
            &&& now.input.key@ == spec.input.key@
            &&& now.input.enabled == spec.input.enabled
            &&& now.input@.exported() == spec.input@
            &&& now.id.0 == was.id.0
            &&& now.input.id.0 == was.input.id.0
            &&& now.input.status == was.input.status
            &&& final(state)@.password_hash == old(state)@.password_hash
            &&& final(state).restreams@.len() == old(state).restreams@.len()
            &&& forall|i: int|
                #![trigger final(state).restreams@[i]]
                0 <= i < old(state).restreams@.len() && i != n ==> final(state).restreams@[i]@
                    == old(state).restreams@[i]@
        },
{
    lemma_restream_place(*old(state), id, n);
    let restreams = old(state).restreams@;
    assert forall|i: int| 0 <= i < restreams.len() implies old(state)@.restreams[i]
        == (#[trigger] restreams[i])@ by {}
    if exists|i: int|
        0 <= i < restreams.len() && (#[trigger] restreams[i]).id.0 != id.0 && restreams[i].key@
            == spec.key@ {
        let i = choose|i: int|
            0 <= i < restreams.len() && (#[trigger] restreams[i]).id.0 != id.0 && restreams[i].key@
                == spec.key@;
        assert(old(state)@.restreams[i].key == spec@.key);
    }
    if edited is Ok {
        let expected = old(state)@.with_restream(n, restreams[n]@.applied(spec@, false));
        crate::laws::fields::law_expected_state(final(state)@, expected);
        assert(final(state)@.restreams[n].realizes(expected.restreams[n]));
    }
}

/// Adding a restream puts it beyond all the restreams, as it's specified. If there
/// is one with such key, then nothing is added, and the key is told. Nothing else
/// changes.
pub proof fn law_call_adds_restream(
    state: &mut State,
    spec: v1::Restream,
    added: Result<(), KeyIsUsed>,
)
    requires
        call_ensures(State::add_restream, (state, spec), added),
    ensures
        added is Err <==> exists|i: int|
            0 <= i < old(state).restreams@.len() && (#[trigger] old(state).restreams@[i]).key@
                == spec.key@,
        added is Err ==> added->Err_0.key@ == spec.key@ && final(state)@ == old(state)@,
        added is Ok ==> {
            let last = final(state).restreams@.last();
            &&& final(state)@.password_hash == old(state)@.password_hash
            &&& final(state).restreams@.len() == old(state).restreams@.len() + 1
            &&& forall|i: int|
                0 <= i < old(state).restreams@.len() ==> #[trigger] final(state).restreams@[i]@
                    == old(state).restreams@[i]@
            &&& last@.exported() == spec@
            &&& last.input.status == Status::Offline
            &&& last.input.srs_publisher_id is None
            &&& last.input.srs_player_ids@.len() == 0
        },
{
    let restreams = old(state).restreams@;
    assert forall|i: int| 0 <= i < restreams.len() implies old(state)@.restreams[i]
        == (#[trigger] restreams[i])@ by {}
    if exists|i: int| 0 <= i < restreams.len() && (#[trigger] restreams[i]).key@ == spec.key@ {
        let i = choose|i: int|
            0 <= i < restreams.len() && (#[trigger] restreams[i]).key@ == spec.key@;
        assert(old(state)@.restreams[i].key == spec@.key);
    }
    if added is Ok {
        let fresh = RestreamView::fresh(spec@);
        let expected = old(state)@.with_restreams(old(state)@.restreams.push(fresh));
        let last = final(state).restreams@[restreams.len() as int];
        crate::laws::fields::law_expected_state(final(state)@, expected);
        assert(final(state)@.restreams[restreams.len() as int].realizes(fresh));
        crate::laws::exports::lemma_fresh_restream_exported(spec@);
        crate::laws::exports::lemma_state_exported_alike(final(state)@, expected);
        assert(final(state)@.exported().restreams[restreams.len() as int] == last@.exported());
        assert(expected.exported().restreams[restreams.len() as int] == fresh.exported());
        assert forall|i: int|
            0 <= i < restreams.len() implies #[trigger] final(state).restreams@[i]@
            == restreams[i]@ by {
            assert(final(state).restreams@.drop_last()[i] == final(state).restreams@[i]);
        }
    }
}

/// Removing a restream leaves all the ones with other IDs as they are, in the same
/// order. It tells whether there has been any with the given one. Nothing else
/// changes.
pub proof fn law_call_removes_restream(state: &mut State, id: RestreamId, removed: Option<()>)
    requires
        call_ensures(State::remove_restream, (state, id), removed),
    ensures
        removed is Some <==> exists|i: int|
            0 <= i < old(state).restreams@.len() && (#[trigger] old(state).restreams@[i]).id.0
                == id.0,
        final(state)@.password_hash == old(state)@.password_hash,
        final(state)@.restreams == old(state)@.restreams.filter(
            |restream: RestreamView| restream.id != Id::Known(id.0),
        ),
{
    law_place_of_restream(old(state)@, id);
    let restreams = old(state).restreams@;
    assert forall|i: int| 0 <= i < restreams.len() implies old(state)@.restreams[i].id == Id::Known(
        (#[trigger] restreams[i]).id.0,
    ) by {}
    if let Some(n) = old(state)@.restream_at(id) {
        assert(restreams[n].id.0 == id.0);
    }
    assert((|item: RestreamView| !restream_has_id()(item, id)) =~= (|restream: RestreamView|
        restream.id != Id::Known(id.0)));
}

/// Removing an output leaves all the ones with other IDs as they are, in the same
/// order. It tells whether there has been any with the given one. Nothing else
/// changes.
pub proof fn law_call_removes_output(
    state: &mut State,
    id: RestreamId,
    n: int,
    output_id: OutputId,
    removed: Option<bool>,
)
    requires
        call_ensures(State::remove_output, (state, id, output_id), removed),
        0 <= n < old(state).restreams@.len(),
        old(state).restreams@[n].id.0 == id.0,
        forall|i: int| 0 <= i < n ==> (#[trigger] old(state).restreams@[i]).id.0 != id.0,
    ensures
        ({
            let (was, now) = (old(state).restreams@[n], final(state).restreams@[n]);
            &&& removed is Some
            &&& removed->0 <==> exists|i: int|
                0 <= i < was.outputs@.len() && (#[trigger] was.outputs@[i]).id.0 == output_id.0
            &&& now@.outputs == was@.outputs.filter(
                |output: OutputView| output.id != Id::Known(output_id.0),
            )
            &&& now.id.0 == was.id.0
            &&& now.key@ == was.key@
            &&& now@.label == was@.label
            &&& now.input@ == was.input@
            &&& final(state)@.password_hash == old(state)@.password_hash
            &&& final(state).restreams@.len() == old(state).restreams@.len()
            &&& forall|i: int|
                #![trigger final(state).restreams@[i]]
                0 <= i < old(state).restreams@.len() && i != n ==> final(state).restreams@[i]@
                    == old(state).restreams@[i]@
        }),
{
    lemma_restream_place(*old(state), id, n);
    lemma_others_remain(*old(state), *final(state), n);
    law_place_of_output(old(state)@, id, output_id);
    let was = old(state).restreams@[n];
    assert forall|i: int| 0 <= i < was.outputs@.len() implies was@.outputs[i].id == Id::Known(
        (#[trigger] was.outputs@[i]).id.0,
    ) by {}
    if let Some((_, m)) = old(state)@.output_at(id, output_id) {
        assert(was.outputs@[m].id.0 == output_id.0);
    }
    assert((|item: OutputView| !output_has_id()(item, output_id)) =~= (|output: OutputView|
        output.id != Id::Known(output_id.0)));
}

/// States are the same if their contents are.
proof fn lemma_same_restreams(before: State, after: State)
    requires
        after@ == before@,
    ensures
        after.restreams@.len() == before.restreams@.len(),
        forall|i: int|
            0 <= i < before.restreams@.len() ==> #[trigger] after.restreams@[i]@
                == before.restreams@[i]@,
{
    assert(after@.restreams.len() == after.restreams@.len());
    assert(before@.restreams.len() == before.restreams@.len());
    assert forall|i: int| 0 <= i < before.restreams@.len() implies #[trigger] after.restreams@[i]@
        == before.restreams@[i]@ by {
        assert(after@.restreams[i] == after.restreams@[i]@);
        assert(before@.restreams[i] == before.restreams@[i]@);
    }
}

/// Outputs but the substituted one are the same.
proof fn lemma_other_outputs_remain(before: State, after: State, n: int, m: int)
    requires
        0 <= n < before.restreams@.len(),
        0 <= m < before.restreams@[n].outputs@.len(),
        exists|output: OutputView| after@ == #[trigger] before@.with_output(n, m, output),
    ensures
        after@.password_hash == before@.password_hash,
        after.restreams@.len() == before.restreams@.len(),
        forall|i: int|
            0 <= i < before.restreams@.len() && i != n ==> #[trigger] after.restreams@[i]@
                == before.restreams@[i]@,
        ({
            let (was, now) = (before.restreams@[n], after.restreams@[n]);
            &&& was@ == before@.restreams[n]
            &&& now@ == after@.restreams[n]
            &&& now@ == RestreamView { outputs: now@.outputs, ..was@ }
            &&& now.outputs@.len() == was.outputs@.len()
            &&& now.outputs@[m]@ == after@.restreams[n].outputs[m]
            &&& was.outputs@[m]@ == before@.restreams[n].outputs[m]
            &&& forall|i: int|
                0 <= i < was.outputs@.len() && i != m ==> #[trigger] now.outputs@[i]@
                    == was.outputs@[i]@
        }),
{
    let output = choose|output: OutputView|
        after@ == #[trigger] before@.with_output(n, m, output);
    let made = before@.restreams[n].with_outputs(before@.restreams[n].outputs.update(m, output));
    assert(after@ == before@.with_restream(n, made));
    lemma_others_remain(before, after, n);
    let (was, now) = (before.restreams@[n], after.restreams@[n]);
    assert(now@ == made);
    assert(now.outputs@.len() == now@.outputs.len());
    assert forall|i: int| 0 <= i < was.outputs@.len() && i != m implies #[trigger] now.outputs@[i]@
        == was.outputs@[i]@ by {
        assert(now@.outputs[i] == was@.outputs[i]);
    }
}

/// If there is no restream with the given ID, then no operation on it, or on
/// anything of it, changes anything, and each of them tells so.
pub proof fn law_calls_on_absent_restream(
    state: &mut State,
    id: RestreamId,
    output_id: OutputId,
    mixin_id: MixinId,
    in_output: Option<MixinId>,
    spec: v1::Restream,
    dst: OutputDstUrl,
    label: Option<Label>,
    mix_with: Option<MixinSrcUrl>,
    volume: Volume,
    delay: Delay,
    done: Option<bool>,
    edited: Result<Option<()>, KeyIsUsed>,
)
    requires
        forall|i: int|
            0 <= i < old(state).restreams@.len() ==> (#[trigger] old(state).restreams@[i]).id.0
                != id.0,
    ensures
        ({
            ||| call_ensures(State::enable_restream, (state, id), done)
            ||| call_ensures(State::disable_restream, (state, id), done)
            ||| call_ensures(State::enable_all_outputs, (state, id), done)
            ||| call_ensures(State::disable_all_outputs, (state, id), done)
            ||| call_ensures(State::enable_output, (state, id, output_id), done)
            ||| call_ensures(State::disable_output, (state, id, output_id), done)
            ||| call_ensures(State::remove_output, (state, id, output_id), done)
            ||| call_ensures(State::tune_volume, (state, id, output_id, in_output, volume), done)
            ||| call_ensures(State::tune_delay, (state, id, output_id, mixin_id, delay), done)
            ||| call_ensures(State::add_new_output, (state, id, dst, label, mix_with), done)
        }) ==> done is None && final(state)@ == old(state)@,
        call_ensures(State::edit_restream, (state, id, spec), edited) ==> {
            &&& edited matches Ok(edited) ==> edited is None
            &&& final(state)@ == old(state)@
        },
{
    law_place_of_restream(old(state)@, id);
    assert(old(state)@.restream_at(id) is None) by {
        if let Some(n) = old(state)@.restream_at(id) {
            assert(old(state)@.restreams[n].id == Id::Known(old(state).restreams@[n].id.0));
        }
    }
    law_place_of_output(old(state)@, id, output_id);
    law_place_of_mixin(old(state)@, id, output_id, mixin_id);
    if let Some(k) = in_output {
        law_place_of_mixin(old(state)@, id, output_id, k);
    }
}

/// If there is no output with the given ID in the restream, then no operation on
/// it, or on anything of it, changes anything, and each of them tells so.
pub proof fn law_calls_on_absent_output(
    state: &mut State,
    id: RestreamId,
    n: int,
    output_id: OutputId,
    mixin_id: MixinId,
    in_output: Option<MixinId>,
    volume: Volume,
    delay: Delay,
    done: Option<bool>,
)
    requires
        0 <= n < old(state).restreams@.len(),
        old(state).restreams@[n].id.0 == id.0,
        forall|i: int| 0 <= i < n ==> (#[trigger] old(state).restreams@[i]).id.0 != id.0,
        forall|i: int|
            0 <= i < old(state).restreams@[n].outputs@.len() ==> (
            #[trigger] old(state).restreams@[n].outputs@[i]).id.0 != output_id.0,
    ensures
        ({
            ||| call_ensures(State::enable_output, (state, id, output_id), done)
            ||| call_ensures(State::disable_output, (state, id, output_id), done)
            ||| call_ensures(State::tune_volume, (state, id, output_id, in_output, volume), done)
            ||| call_ensures(State::tune_delay, (state, id, output_id, mixin_id, delay), done)
        }) ==> done is None && final(state)@ == old(state)@,
{
    lemma_restream_place(*old(state), id, n);
    law_place_of_output(old(state)@, id, output_id);
    assert(old(state)@.output_at(id, output_id) is None) by {
        if let Some((_, m)) = old(state)@.output_at(id, output_id) {
            assert(old(state)@.restreams[n].outputs[m].id == Id::Known(
                old(state).restreams@[n].outputs@[m].id.0,
            ));
        }
    }
    law_place_of_mixin(old(state)@, id, output_id, mixin_id);
    if let Some(k) = in_output {
        law_place_of_mixin(old(state)@, id, output_id, k);
    }
}

/// If there is no mixin with the given ID in the output, then tuning it changes
/// nothing, and tells so.
pub proof fn law_calls_on_absent_mixin(
    state: &mut State,
    id: RestreamId,
    n: int,
    output_id: OutputId,
    m: int,
    mixin_id: MixinId,
    volume: Volume,
    delay: Delay,
    done: Option<bool>,
)
    requires
        0 <= n < old(state).restreams@.len(),
        old(state).restreams@[n].id.0 == id.0,
        forall|i: int| 0 <= i < n ==> (#[trigger] old(state).restreams@[i]).id.0 != id.0,
        0 <= m < old(state).restreams@[n].outputs@.len(),
        old(state).restreams@[n].outputs@[m].id.0 == output_id.0,
        forall|i: int|
            0 <= i < m ==> (#[trigger] old(state).restreams@[n].outputs@[i]).id.0 != output_id.0,
        forall|i: int|
            0 <= i < old(state).restreams@[n].outputs@[m].mixins@.len() ==> (
            #[trigger] old(state).restreams@[n].outputs@[m].mixins@[i]).id.0 != mixin_id.0,
    ensures
        ({
            ||| call_ensures(
                State::tune_volume,
                (state, id, output_id, Some(mixin_id), volume),
                done,
            )
            ||| call_ensures(State::tune_delay, (state, id, output_id, mixin_id, delay), done)
        }) ==> done is None && final(state)@ == old(state)@,
{
    lemma_output_place(*old(state), id, n, output_id, m);
    law_place_of_mixin(old(state)@, id, output_id, mixin_id);
    assert(old(state)@.mixin_at(id, output_id, mixin_id) is None) by {
        if let Some((_, _, k)) = old(state)@.mixin_at(id, output_id, mixin_id) {
            assert(old(state)@.restreams[n].outputs[m].mixins[k].id == Id::Known(
                old(state).restreams@[n].outputs@[m].mixins@[k].id.0,
            ));
        }
    }
}

/// No matter whether it's replaced or merged, applying makes a destination, a label
/// and a volume of an output, and whether it's enabled, exactly the specified ones,
/// while its ID and its status remain.
pub proof fn law_call_applies_output(output: &mut Output, new: v1::Output, replace: bool)
    requires
        call_ensures(Output::apply, (output, new, replace), ()),
    ensures
        final(output).dst@ == new.dst@,
        final(output).label is Some <==> new.label is Some,
        new.label is Some ==> final(output).label->0@ == new.label->0@,
        final(output).volume@ == new.volume@,
        final(output).enabled == new.enabled,
        final(output).id.0 == old(output).id.0,
        final(output).status == old(output).status,
{
}

/// Merging an output leaves a mixin of it which isn't specified as it is.
pub proof fn law_call_keeps_mixin(output: &mut Output, new: v1::Output, k: int)
    requires
        call_ensures(Output::apply, (output, new, false), ()),
        0 <= k < old(output).mixins@.len(),
        forall|i: int|
            0 <= i < new.mixins@.len() ==> (#[trigger] new.mixins@[i]).src@.text
                != old(output).mixins@[k].src@.text,
    ensures
        k < final(output).mixins@.len(),
        final(output).mixins@[k]@ == old(output).mixins@[k]@,
{
    let (was, now) = (*old(output), *final(output));
    assert(now.mixins@.len() == now@.mixins.len());
    assert forall|i: int| 0 <= i < new@.mixins.len() implies (#[trigger] new@.mixins[i]).src.text
        != was@.mixins[k].src.text by {
        assert(new@.mixins[i] == new.mixins@[i]@);
    }
    law_unspecified_mixin(was@, new@, now@, k);
    assert(now@.mixins[k] == now.mixins@[k]@);
}

/// Merging an output gives a mixin which is specified, provided that no other one
/// with the same source is, the specified volume and delay.
pub proof fn law_call_merges_mixin(output: &mut Output, new: v1::Output, i: int)
    requires
        call_ensures(Output::apply, (output, new, false), ()),
        0 <= i < new.mixins@.len(),
        forall|j: int|
            0 <= j < new.mixins@.len() && j != i ==> (#[trigger] new.mixins@[j]).src@.text
                != new.mixins@[i].src@.text,
    ensures
        exists|k: int|
            0 <= k < final(output).mixins@.len() && {
                let mixin = #[trigger] final(output).mixins@[k];
                &&& mixin.src@ == new.mixins@[i].src@
                &&& mixin.volume@ == new.mixins@[i].volume@
                &&& mixin.delay@ == new.mixins@[i].delay@
            },
{
    let (was, now) = (*old(output), *final(output));
    assert(now.mixins@.len() == now@.mixins.len());
    assert forall|j: int| 0 <= j < new@.mixins.len() && j != i implies (
    #[trigger] new@.mixins[j]).src.text != new@.mixins[i].src.text by {
        assert(new@.mixins[j] == new.mixins@[j]@);
    }
    let k = law_merged_mixin(was@, new@, now@, i);
    assert(now@.mixins[k] == now.mixins@[k]@);
}

/// No matter whether it's replaced or merged, applying makes a key and a label of a
/// restream exactly the specified ones, and makes its input be exported as the
/// specified one, while IDs of both remain.
pub proof fn law_call_applies_restream(restream: &mut Restream, new: v1::Restream, replace: bool)
    requires
        call_ensures(Restream::apply, (restream, new, replace), ()),
    ensures
        final(restream).key@ == new.key@,
        final(restream).label is Some <==> new.label is Some,
        new.label is Some ==> final(restream).label->0@ == new.label->0@,
        final(restream).input.key@ == new.input.key@,
        final(restream).input.enabled == new.input.enabled,
        final(restream).input@.exported() == new.input@,
        final(restream).id.0 == old(restream).id.0,
        final(restream).input.id.0 == old(restream).input.id.0,
        final(restream).input.status == old(restream).input.status,
{
}

/// Merging a state gives each specified output of each specified restream, provided
/// that no other restream with the same key and no other output of it with the same
/// destination is specified, the specified label and volume, and makes it enabled
/// or disabled as it's specified. An output which isn't new keeps its ID and its
/// status.
pub proof fn law_call_merges_output(
    state: &mut State,
    new: v1::Spec,
    i: int,
    j: int,
)
    requires
        call_ensures(State::apply, (state, Spec::V1(new), false), ()),
        0 <= i < new.restreams@.len(),
        0 <= j < new.restreams@[i].outputs@.len(),
        forall|k: int|
            0 <= k < new.restreams@.len() && k != i ==> (#[trigger] new.restreams@[k]).key@
                != new.restreams@[i].key@,
        forall|k: int|
            0 <= k < new.restreams@[i].outputs@.len() && k != j ==> (
            #[trigger] new.restreams@[i].outputs@[k]).dst@.text
                != new.restreams@[i].outputs@[j].dst@.text,
    ensures
        exists|n: int, m: int|
            0 <= n < final(state).restreams@.len()
                && 0 <= m < final(state).restreams@[n].outputs@.len() && {
                let restream = final(state).restreams@[n];
                let output = #[trigger] final(state).restreams@[n].outputs@[m];
                let wanted = new.restreams@[i].outputs@[j];
                &&& restream.key@ == new.restreams@[i].key@
                &&& restream@.label == new.restreams@[i]@.label
                &&& restream.input@.exported() == new.restreams@[i].input@
                &&& output.dst@ == wanted.dst@
                &&& output@.label == wanted@.label
                &&& output.volume@ == wanted.volume@
                &&& output.enabled == wanted.enabled
                &&& n < old(state).restreams@.len() && m < old(state).restreams@[n].outputs@.len()
                    ==> {
                    let was = old(state).restreams@[n].outputs@[m];
                    &&& was.dst@.text == wanted.dst@.text
                    &&& output.id.0 == was.id.0
                    &&& output.status == was.status
                }
            },
{
    let (was, now) = (*old(state), *final(state));
    let spec = new@;
    assert(Spec::V1(new)@ == spec);
    assert forall|k: int| 0 <= k < spec.restreams.len() && k != i implies (
    #[trigger] spec.restreams[k]).key != spec.restreams[i].key by {
        assert(new.restreams@[k].key@ != new.restreams@[i].key@);
    }
    let n = law_merged_restream(was@, spec, now@, i);
    let restream = spec.restreams[i];
    assert(now@.restreams.len() == now.restreams@.len());
    assert(now@.restreams[n] == now.restreams@[n]@);
    assert forall|k: int| 0 <= k < restream.outputs.len() && k != j implies (
    #[trigger] restream.outputs[k]).dst.text != restream.outputs[j].dst.text by {
        assert(new.restreams@[i].outputs@[k].dst@.text != new.restreams@[i].outputs@[j].dst@.text);
    }
    let outputs = now.restreams@[n].outputs@;
    let m = if n < was.restreams@.len() {
        let m = law_merged_output(was@.restreams[n], restream, now@.restreams[n], j);
        m
    } else {
        law_new_restream(restream, now@.restreams[n]);
        law_new_output(restream.outputs[j], now@.restreams[n].outputs[j]);
        j
    };
    assert(outputs.len() == now@.restreams[n].outputs.len());
    assert(now@.restreams[n].outputs[m] == outputs[m]@);
    assert(restream.outputs[j] == new.restreams@[i].outputs@[j]@);
    assert(now.restreams@[n].outputs@[m]@.label == new.restreams@[i].outputs@[j]@.label);
}

/// Once a specification is applied replacing everything, it's what is exported.
pub proof fn law_call_exports_applied(state: &mut State, new: v1::Spec, exported: Spec)
    requires
        call_ensures(State::apply, (state, Spec::V1(new), true), ()),
        call_ensures(State::export, (final(state),), exported),
    ensures
        exported@ == new@,
        final(state)@.password_hash == old(state)@.password_hash,
{
    law_replaced_state_exports_spec(old(state)@, new@, final(state)@);
}

/// Disabling an input disables it and all the inputs under it, at any depth,
/// whatever their sources are. It tells whether any of them has been enabled.
pub proof fn law_call_disables_input(input: &mut Input, changed: bool)
    requires
        call_ensures(Input::disable, (input,), changed),
    ensures
        !final(input).enabled,
        forall|path: Seq<int>|
            (#[trigger] final(input)@.at(path)) is Some <==> old(input)@.at(path) is Some,
        forall|path: Seq<int>|
            (#[trigger] final(input)@.at(path)) matches Some(a) ==> !a.enabled,
        changed <==> exists|path: Seq<int>|
            (#[trigger] old(input)@.at(path)) matches Some(a) && a.enabled,
{
}

/// Enabling an input enables it and all the inputs under it, at any depth,
/// whatever their sources are. It tells whether any of them has been disabled.
pub proof fn law_call_enables_input(input: &mut Input, changed: bool)
    requires
        call_ensures(Input::enable, (input,), changed),
    ensures
        final(input).enabled,
        forall|path: Seq<int>|
            (#[trigger] final(input)@.at(path)) is Some <==> old(input)@.at(path) is Some,
        forall|path: Seq<int>|
            (#[trigger] final(input)@.at(path)) matches Some(a) ==> a.enabled,
        changed <==> exists|path: Seq<int>|
            (#[trigger] old(input)@.at(path)) matches Some(a) && !a.enabled,
{
}

/// Once an input is disabled, disabling it again changes nothing, while enabling it
/// does.
pub proof fn law_calls_after_disabling(
    first: &mut Input,
    second: &mut Input,
    changed: bool,
    again: bool,
)
    requires
        call_ensures(Input::disable, (first,), changed),
        *old(second) == *final(first),
    ensures
        call_ensures(Input::disable, (second,), again) ==> {
            &&& !again
            &&& final(second)@ == final(first)@
        },
        call_ensures(Input::enable, (second,), again) ==> again,
{
    law_disabled_input(old(first)@);
    law_disabled_at_any_depth(old(first)@, seq![]);
    assert(old(second)@.at(seq![]) == Some(old(second)@));
}

} // verus!
