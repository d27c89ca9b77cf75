//! What separate edits of a state change, and what they keep.

use vstd::prelude::*;

use crate::addresses::UrlView;
use crate::ids::{Id, MixinId, OutputId, RestreamId};
use crate::laws::exports::{
    law_mixins_pass_if_differ, law_outputs_pass_if_differ, lemma_exported_srcs,
    lemma_fresh_restream_exported, lemma_state_exported_alike,
};
use crate::laws::merges::{lemma_merged_restream_valid, lemma_state_valid};
use crate::lists::{lemma_find, lemma_find_alike, lemma_without, lemma_without_apart, without};
use crate::spec::v1;
use crate::state::{outputs_switched, State, StateView};
use crate::state::input::{srcs_exported, InputSrcView, InputView};
use crate::state::mixin::{mixin_has_id, mixins_exported, MixinView};
use crate::state::output::{output_has_id, output_realizes, outputs_exported, OutputView};
use crate::state::restream::{restream_has_id, restream_realizes, RestreamView};

verus! {

/// Once a restream is added, it's exported as the last one, and exactly as it
/// has been specified, after all that has been exported before. Adding one with
/// the same key again is refused.
pub proof fn law_added_restream(before: StateView, spec: v1::RestreamView, after: StateView)
    requires
        after.realizes(before.with_restreams(before.restreams.push(RestreamView::fresh(spec)))),
    ensures
        after.exported().restreams == before.exported().restreams.push(spec),
        after.uses_key(spec.key),
{
    let expected = before.with_restreams(before.restreams.push(RestreamView::fresh(spec)));
    lemma_state_exported_alike(after, expected);
    lemma_fresh_restream_exported(spec);
    assert(expected.exported().restreams =~= before.exported().restreams.push(spec));
    let n = before.restreams.len() as int;
    assert(restream_realizes()(after.restreams[n], expected.restreams[n]));
    assert(after.restreams[n].key == spec.key);
}

/// Adding a valid restream whose key isn't used keeps an export valid.
pub proof fn law_adding_restream_keeps_valid(
    before: StateView,
    spec: v1::RestreamView,
    after: StateView,
)
    requires
        before.exported().is_valid(),
        spec.is_valid(),
        !before.uses_key(spec.key),
        after.realizes(before.with_restreams(before.restreams.push(RestreamView::fresh(spec)))),
    ensures
        after.exported().is_valid(),
{
    let expected = before.with_restreams(before.restreams.push(RestreamView::fresh(spec)));
    lemma_state_exported_alike(after, expected);
    lemma_fresh_restream_exported(spec);
    lemma_state_valid(before);
    lemma_state_valid(expected);
    assert forall|i: int, j: int| 0 <= i < j < expected.restreams.len() implies (
    #[trigger] expected.restreams[i]).key != (#[trigger] expected.restreams[j]).key by {
        assert(expected.restreams[i] == before.restreams[i]);
        if j < before.restreams.len() {
            assert(before.restreams[i].key != before.restreams[j].key);
        }
    }
    assert forall|i: int| 0 <= i < expected.restreams.len() implies (
    #[trigger] expected.restreams[i]).exported().is_valid() by {
        if i < before.restreams.len() {
            assert(before.restreams[i].exported().is_valid());
        }
    }
}

/// Editing a restream by a valid specification whose key no other one uses
/// keeps an export valid, provided that no other restream has the same ID.
pub proof fn law_editing_restream_keeps_valid(
    before: StateView,
    id: RestreamId,
    n: int,
    spec: v1::RestreamView,
    after: StateView,
)
    requires
        before.exported().is_valid(),
        spec.is_valid(),
        before.restream_at(id) == Some(n),
        forall|i: int|
            0 <= i < before.restreams.len() && i != n ==> (#[trigger] before.restreams[i]).id
                != Id::Known(id.0),
        !before.uses_key_besides(spec.key, id),
        after.realizes(before.with_restream(n, before.restreams[n].applied(spec, false))),
    ensures
        after.exported().is_valid(),
{
    let made = before.restreams[n].applied(spec, false);
    let expected = before.with_restream(n, made);
    lemma_find(before.restreams, id, restream_has_id());
    lemma_state_exported_alike(after, expected);
    lemma_state_valid(before);
    lemma_state_valid(expected);
    assert(before.restreams[n].exported().is_valid());
    lemma_merged_restream_valid(before.restreams[n], spec);
    assert forall|i: int, j: int| 0 <= i < j < expected.restreams.len() implies (
    #[trigger] expected.restreams[i]).key != (#[trigger] expected.restreams[j]).key by {
        if i == n {
            assert(before.restreams[j].key != spec.key);
        } else if j == n {
            assert(before.restreams[i].key != spec.key);
        } else {
            assert(before.restreams[i].key != before.restreams[j].key);
        }
    }
    assert forall|i: int| 0 <= i < expected.restreams.len() implies (
    #[trigger] expected.restreams[i]).exported().is_valid() by {
        if i != n {
            assert(before.restreams[i].exported().is_valid());
        }
    }
}

/// Once a restream is removed, it's not there, while all the others are.
/// Removing it keeps an export valid.
pub proof fn law_removed_restream(before: StateView, id: RestreamId, after: StateView)
    requires
        after == before.with_restreams(without(before.restreams, id, restream_has_id())),
    ensures
        after.restream_at(id) is None,
        forall|i: int|
            0 <= i < before.restreams.len() && (#[trigger] before.restreams[i]).id != Id::Known(
                id.0,
            ) ==> after.restreams.contains(before.restreams[i]),
        before.exported().is_valid() ==> after.exported().is_valid(),
{
    lemma_without(before.restreams, id, restream_has_id());
    if before.exported().is_valid() {
        lemma_state_valid(before);
        lemma_state_valid(after);
        let apart = |a: RestreamView, b: RestreamView| a.key != b.key;
        lemma_without_apart(before.restreams, id, restream_has_id(), apart);
        assert forall|i: int| 0 <= i < after.restreams.len() implies (
        #[trigger] after.restreams[i]).exported().is_valid() by {
            let k = before.restreams.index_of(after.restreams[i]);
            assert(before.restreams[k].exported().is_valid());
        }
    }
}

/// Once an output is added to a restream, adding one with the same destination
/// to it again is refused, and the restream stands where it has been.
pub proof fn law_added_output(
    before: State,
    id: RestreamId,
    n: int,
    output: OutputView,
    after: StateView,
)
    requires
        before@.restream_at(id) == Some(n),
        after.realizes(
            before@.with_restream(
                n,
                before@.restreams[n].with_outputs(before@.restreams[n].outputs.push(output)),
            ),
        ),
    ensures
        after.restream_at(id) == Some(n),
        after.restreams[n].has_dst(output.dst.text),
{
    let restream = before@.restreams[n];
    let made = restream.with_outputs(restream.outputs.push(output));
    let expected = before@.with_restream(n, made);
    lemma_find(before@.restreams, id, restream_has_id());
    assert(restream_realizes()(after.restreams[n], made));
    let m = restream.outputs.len() as int;
    assert(output_realizes()(after.restreams[n].outputs[m], made.outputs[m]));
    assert(after.restreams[n].outputs[m].dst.text == output.dst.text);
    lemma_find(after.restreams, id, restream_has_id());
    assert forall|i: int| 0 <= i <= n implies restream_has_id()(#[trigger] after.restreams[i], id)
        == restream_has_id()(before@.restreams[i], id) by {
        assert(restream_realizes()(after.restreams[i], expected.restreams[i]));
        assert(before@.restreams[i] == before.restreams@[i]@);
    }
    assert(restream_has_id()(after.restreams[n], id));
}

/// Outputs with different destinations, being valid themselves, are exported as
/// valid ones, and the other way around.
proof fn lemma_outputs_valid(outputs: Seq<OutputView>)
    ensures
        v1::are_valid_outputs(outputs_exported(outputs)) <==> {
            &&& forall|i: int, j: int|
                0 <= i < j < outputs.len() ==> (#[trigger] outputs[i]).dst.text != (
                #[trigger] outputs[j]).dst.text
            &&& forall|i: int|
                0 <= i < outputs.len() ==> (#[trigger] outputs[i]).exported().is_valid()
        },
{
    let news = outputs_exported(outputs);
    law_outputs_pass_if_differ(news);
    if v1::are_valid_outputs(news) {
        assert forall|i: int, j: int| 0 <= i < j < outputs.len() implies (
        #[trigger] outputs[i]).dst.text != (#[trigger] outputs[j]).dst.text by {
            assert(news[i].dst.text != news[j].dst.text);
        }
        assert forall|i: int| 0 <= i < outputs.len() implies (
        #[trigger] outputs[i]).exported().is_valid() by {
            assert(news[i].is_valid());
        }
    }
}

/// Giving a restream other valid outputs keeps an export valid.
pub proof fn law_other_outputs_keep_valid(before: StateView, n: int, outputs: Seq<OutputView>)
    requires
        before.exported().is_valid(),
        0 <= n < before.restreams.len(),
        v1::are_valid_outputs(outputs_exported(outputs)),
    ensures
        before.with_restream(n, before.restreams[n].with_outputs(outputs)).exported().is_valid(),
{
    let after = before.with_restream(n, before.restreams[n].with_outputs(outputs));
    lemma_state_valid(before);
    lemma_state_valid(after);
    assert(before.restreams[n].exported().is_valid());
    assert forall|i: int, j: int| 0 <= i < j < after.restreams.len() implies (
    #[trigger] after.restreams[i]).key != (#[trigger] after.restreams[j]).key by {
        assert(before.restreams[i].key != before.restreams[j].key);
    }
    assert forall|i: int| 0 <= i < after.restreams.len() implies (
    #[trigger] after.restreams[i]).exported().is_valid() by {
        assert(before.restreams[i].exported().is_valid());
    }
}

/// Adding an output to a destination which a restream doesn't have yet keeps an
/// export valid.
pub proof fn law_adding_output_keeps_valid(
    before: StateView,
    n: int,
    dst: UrlView,
    label: Option<Seq<char>>,
    mix_with: Option<UrlView>,
    after: StateView,
)
    requires
        before.exported().is_valid(),
        0 <= n < before.restreams.len(),
        !before.restreams[n].has_dst(dst.text),
        after.realizes(
            before.with_restream(
                n,
                before.restreams[n].with_outputs(
                    before.restreams[n].outputs.push(OutputView::added(dst, label, mix_with)),
                ),
            ),
        ),
    ensures
        after.exported().is_valid(),
{
    let output = OutputView::added(dst, label, mix_with);
    let outputs = before.restreams[n].outputs;
    let more = outputs.push(output);
    let expected = before.with_restream(n, before.restreams[n].with_outputs(more));
    lemma_state_exported_alike(after, expected);
    lemma_state_valid(before);
    assert(before.restreams[n].exported().is_valid());
    lemma_outputs_valid(outputs);
    lemma_outputs_valid(more);
    law_mixins_pass_if_differ(output.exported().mixins);
    assert(output.exported().is_valid());
    assert forall|i: int, j: int| 0 <= i < j < more.len() implies (#[trigger] more[i]).dst.text != (
    #[trigger] more[j]).dst.text by {
        assert(more[i] == outputs[i]);
        if j < outputs.len() {
            assert(outputs[i].dst.text != outputs[j].dst.text);
        }
    }
    assert forall|i: int| 0 <= i < more.len() implies (#[trigger] more[i]).exported().is_valid() by {
        if i < outputs.len() {
            assert(outputs[i].exported().is_valid());
        }
    }
    law_other_outputs_keep_valid(before, n, more);
}

/// Once an output is removed from a restream, it's not there, while all the
/// others are. Removing it keeps an export valid.
pub proof fn law_removed_output(
    before: StateView,
    id: RestreamId,
    n: int,
    output_id: OutputId,
    after: StateView,
)
    requires
        before.restream_at(id) == Some(n),
        after == before.with_restream(
            n,
            before.restreams[n].with_outputs(
                without(before.restreams[n].outputs, output_id, output_has_id()),
            ),
        ),
    ensures
        after.restream_at(id) == Some(n),
        after.output_at(id, output_id) is None,
        forall|i: int|
            0 <= i < before.restreams[n].outputs.len() && (
            #[trigger] before.restreams[n].outputs[i]).id != Id::Known(output_id.0)
                ==> after.restreams[n].outputs.contains(before.restreams[n].outputs[i]),
        before.exported().is_valid() ==> after.exported().is_valid(),
{
    let outputs = before.restreams[n].outputs;
    let left = without(outputs, output_id, output_has_id());
    lemma_find(before.restreams, id, restream_has_id());
    lemma_without(outputs, output_id, output_has_id());
    assert forall|i: int| 0 <= i < before.restreams.len() implies restream_has_id()(
        #[trigger] before.restreams[i],
        id,
    ) == restream_has_id()(after.restreams[i], id) by {}
    lemma_find_alike(before.restreams, after.restreams, id, restream_has_id());
    if before.exported().is_valid() {
        lemma_state_valid(before);
        assert(before.restreams[n].exported().is_valid());
        lemma_outputs_valid(outputs);
        lemma_outputs_valid(left);
        let apart = |a: OutputView, b: OutputView| a.dst.text != b.dst.text;
        lemma_without_apart(outputs, output_id, output_has_id(), apart);
        assert forall|i: int| 0 <= i < left.len() implies (
        #[trigger] left[i]).exported().is_valid() by {
            let k = outputs.index_of(left[i]);
            assert(outputs[k].exported().is_valid());
        }
        law_other_outputs_keep_valid(before, n, left);
    }
}

/// Substituting an output by one with the same ID, whatever else of it changes,
/// affects neither where outputs and restreams are, nor what the others are.
pub proof fn law_substituted_output(
    before: StateView,
    n: int,
    m: int,
    output: OutputView,
    id: RestreamId,
    output_id: OutputId,
)
    requires
        0 <= n < before.restreams.len(),
        0 <= m < before.restreams[n].outputs.len(),
        output.id == before.restreams[n].outputs[m].id,
    ensures
        before.with_output(n, m, output).restream_at(id) == before.restream_at(id),
        before.with_output(n, m, output).output_at(id, output_id) == before.output_at(
            id,
            output_id,
        ),
        before.with_output(n, m, output).restreams[n].outputs[m] == output,
        forall|i: int|
            0 <= i < before.restreams.len() && i != n ==> (
            #[trigger] before.with_output(n, m, output).restreams[i]) == before.restreams[i],
        forall|j: int|
            0 <= j < before.restreams[n].outputs.len() && j != m ==> (
            #[trigger] before.with_output(n, m, output).restreams[n].outputs[j])
                == before.restreams[n].outputs[j],
{
    let after = before.with_output(n, m, output);
    lemma_find_alike(before.restreams, after.restreams, id, restream_has_id());
    lemma_find(before.restreams, id, restream_has_id());
    if let Some(k) = before.restream_at(id) {
        lemma_find_alike(
            before.restreams[k].outputs,
            after.restreams[k].outputs,
            output_id,
            output_has_id(),
        );
    }
}

/// Substituting the same output twice is as good as doing so the last time.
pub proof fn law_output_substituted_twice(
    before: StateView,
    n: int,
    m: int,
    first: OutputView,
    last: OutputView,
)
    requires
        0 <= n < before.restreams.len(),
        0 <= m < before.restreams[n].outputs.len(),
    ensures
        before.with_output(n, m, first).with_output(n, m, last) == before.with_output(n, m, last),
        before.with_output(n, m, before.restreams[n].outputs[m]) == before,
{
    let outputs = before.restreams[n].outputs;
    assert(outputs.update(m, first).update(m, last) =~= outputs.update(m, last));
    assert(before.with_output(n, m, first).with_output(n, m, last).restreams =~= before.with_output(
        n,
        m,
        last,
    ).restreams);
    assert(outputs.update(m, outputs[m]) =~= outputs);
    assert(before.with_output(n, m, outputs[m]).restreams =~= before.restreams);
}

/// Enabling (or disabling) an output once more finds it such already, and
/// changes nothing. Switching it back gives back the state there has been.
pub proof fn law_switched_output(
    before: StateView,
    id: RestreamId,
    output_id: OutputId,
    n: int,
    m: int,
    enabled: bool,
)
    requires
        before.output_at(id, output_id) == Some((n, m)),
    ensures
        ({
            let output = before.restreams[n].outputs[m];
            let after = before.with_output(n, m, OutputView { enabled, ..output });
            let switched = after.restreams[n].outputs[m];
            &&& after.output_at(id, output_id) == Some((n, m))
            &&& switched.enabled == enabled
            &&& after.with_output(n, m, OutputView { enabled, ..switched }) == after
            &&& after.with_output(n, m, OutputView { enabled: output.enabled, ..switched })
                == before
        }),
{
    lemma_output_is_there(before, id, output_id);
    let output = before.restreams[n].outputs[m];
    let made = OutputView { enabled, ..output };
    law_substituted_output(before, n, m, made, id, output_id);
    law_output_substituted_twice(before, n, m, made, made);
    law_output_substituted_twice(before, n, m, made, output);
}

/// Tuning a volume rate of an output to the same value once more finds it such
/// already, and changes nothing.
pub proof fn law_tuned_output(
    before: StateView,
    id: RestreamId,
    output_id: OutputId,
    n: int,
    m: int,
    volume: u16,
)
    requires
        before.output_at(id, output_id) == Some((n, m)),
    ensures
        ({
            let output = before.restreams[n].outputs[m];
            let after = before.with_output(n, m, OutputView { volume, ..output });
            let tuned = after.restreams[n].outputs[m];
            &&& after.output_at(id, output_id) == Some((n, m))
            &&& tuned.volume == volume
            &&& after.with_output(n, m, OutputView { volume, ..tuned }) == after
        }),
{
    lemma_output_is_there(before, id, output_id);
    let output = before.restreams[n].outputs[m];
    let made = OutputView { volume, ..output };
    law_substituted_output(before, n, m, made, id, output_id);
    law_output_substituted_twice(before, n, m, made, made);
}

/// Substituting a mixin by one with the same ID, be it its volume rate or its
/// delay that is tuned, leaves it where it is, and doing so once more changes
/// nothing.
pub proof fn law_tuned_mixin(
    before: StateView,
    id: RestreamId,
    output_id: OutputId,
    mixin_id: MixinId,
    n: int,
    m: int,
    k: int,
    mixin: MixinView,
)
    requires
        before.mixin_at(id, output_id, mixin_id) == Some((n, m, k)),
        mixin.id == before.restreams[n].outputs[m].mixins[k].id,
    ensures
        ({
            let output = before.restreams[n].outputs[m];
            let after = before.with_output(n, m, output.with_mixin(k, mixin));
            let tuned = after.restreams[n].outputs[m];
            &&& after.mixin_at(id, output_id, mixin_id) == Some((n, m, k))
            &&& tuned.mixins[k] == mixin
            &&& after.with_output(n, m, tuned.with_mixin(k, mixin)) == after
        }),
{
    lemma_output_is_there(before, id, output_id);
    let output = before.restreams[n].outputs[m];
    let made = output.with_mixin(k, mixin);
    lemma_find(output.mixins, mixin_id, mixin_has_id());
    lemma_find_alike(output.mixins, made.mixins, mixin_id, mixin_has_id());
    law_substituted_output(before, n, m, made, id, output_id);
    law_output_substituted_twice(before, n, m, made, made);
    assert(made.mixins.update(k, mixin) =~= made.mixins);
}

/// Output which is found is there indeed.
proof fn lemma_output_is_there(state: StateView, id: RestreamId, output_id: OutputId)
    requires
        state.output_at(id, output_id) is Some,
    ensures
        ({
            let (n, m) = state.output_at(id, output_id)->0;
            &&& 0 <= n < state.restreams.len()
            &&& 0 <= m < state.restreams[n].outputs.len()
        }),
{
    lemma_find(state.restreams, id, restream_has_id());
    let n = state.restream_at(id)->0;
    lemma_find(state.restreams[n].outputs, output_id, output_has_id());
}

/// Enabling (or disabling) all outputs makes all of them such, and is as good
/// as doing so the last time.
pub proof fn law_all_outputs_switched(outputs: Seq<OutputView>, first: bool, last: bool)
    ensures
        outputs_switched(outputs, last).len() == outputs.len(),
        forall|i: int|
            0 <= i < outputs.len() ==> (#[trigger] outputs_switched(outputs, last)[i]).enabled
                == last,
        outputs_switched(outputs_switched(outputs, first), last) == outputs_switched(
            outputs,
            last,
        ),
{
    assert(outputs_switched(outputs_switched(outputs, first), last) =~= outputs_switched(
        outputs,
        last,
    ));
}

/// Once an input is enabled, it's enabled along with all the ones under it.
/// Enabling it once more changes nothing, while disabling it is as good as
/// doing so at once.
pub proof fn law_enabled_input(input: InputView)
    ensures
        input.turned_on().is_on(),
        input.is_on() <==> input.turned_on() == input,
        input.turned_on().turned_off() == input.turned_off(),
    decreases input,
{
    let on = input.turned_on();
    assert forall|i: int| 0 <= i < input.srcs.len() implies {
        &&& (#[trigger] on.srcs[i]).is_on()
        &&& input.srcs[i].is_on() <==> on.srcs[i] == input.srcs[i]
        &&& on.srcs[i].turned_off() == input.srcs[i].turned_off()
    } by {
        assert(decreases_to!(input => input.srcs[i]));
        if let InputSrcView::Local(a) = input.srcs[i] {
            law_enabled_input(a);
        }
    }
    assert(on.turned_off().srcs =~= input.turned_off().srcs);
    if input.is_on() {
        assert forall|i: int| 0 <= i < input.srcs.len() implies on.srcs[i] == input.srcs[i] by {
            assert(input.srcs[i].is_on());
        }
        assert(on.srcs =~= input.srcs);
    }
    if on == input {
        assert forall|i: int| 0 <= i < input.srcs.len() implies (#[trigger] input.srcs[i]).is_on() by {
            assert(on.srcs[i].is_on());
        }
    }
}

/// Once an input is disabled, it's disabled along with all the ones under it,
/// and has neither a publisher nor players. Disabling it once more changes
/// nothing.
pub proof fn law_disabled_input(input: InputView)
    ensures
        input.turned_off().is_off(),
        input.turned_off().srs_publisher_id is None,
        input.turned_off().srs_player_ids.len() == 0,
        input.turned_off().turned_off() == input.turned_off(),
    decreases input,
{
    let off = input.turned_off();
    assert forall|i: int| 0 <= i < input.srcs.len() implies (#[trigger] off.srcs[i]).is_off()
        && off.srcs[i].turned_off() == off.srcs[i] by {
        assert(decreases_to!(input => input.srcs[i]));
        if let InputSrcView::Local(a) = input.srcs[i] {
            law_disabled_input(a);
        }
    }
    assert(off.turned_off().srcs =~= off.srcs);
}

/// Neither enabling nor disabling an input affects what should be unique of it.
proof fn lemma_switched_input_idents(input: InputView)
    ensures
        input.turned_on().exported().idents() == input.exported().idents(),
        input.turned_off().exported().idents() == input.exported().idents(),
    decreases input,
{
    lemma_switched_srcs_idents(input.srcs);
    lemma_exported_srcs(input);
    lemma_exported_srcs(input.turned_on());
    lemma_exported_srcs(input.turned_off());
    assert(input.turned_on().srcs =~= srcs_turned(input.srcs, true));
    assert(input.turned_off().srcs =~= srcs_turned(input.srcs, false));
}

/// Sources with all the inputs of them either enabled or disabled.
spec fn srcs_turned(srcs: Seq<InputSrcView>, on: bool) -> Seq<InputSrcView> {
    Seq::new(
        srcs.len(),
        |i: int|
            if on {
                srcs[i].turned_on()
            } else {
                srcs[i].turned_off()
            },
    )
}

/// Neither enabling nor disabling sources affects what should be unique of
/// them.
proof fn lemma_switched_srcs_idents(srcs: Seq<InputSrcView>)
    ensures
        v1::srcs_idents(srcs_exported(srcs_turned(srcs, true))) == v1::srcs_idents(
            srcs_exported(srcs),
        ),
        v1::srcs_idents(srcs_exported(srcs_turned(srcs, false))) == v1::srcs_idents(
            srcs_exported(srcs),
        ),
    decreases srcs,
{
    if srcs.len() > 0 {
        let (fore, last) = (srcs.drop_last(), srcs.last());
        assert(decreases_to!(srcs => srcs[srcs.len() - 1]));
        lemma_switched_srcs_idents(fore);
        assert(last.turned_on().exported().idents() == last.exported().idents()
            && last.turned_off().exported().idents() == last.exported().idents()) by {
            if let InputSrcView::Local(input) = last {
                lemma_switched_input_idents(input);
                let on = InputSrcView::Local(input.turned_on());
                let off = InputSrcView::Local(input.turned_off());
                assert(last.exported().idents() == input.exported().idents());
                assert(on.exported().idents() == input.turned_on().exported().idents());
                assert(off.exported().idents() == input.turned_off().exported().idents());
            }
        }
        assert(srcs_exported(srcs_turned(srcs, true)).last() == last.turned_on().exported());
        assert(srcs_exported(srcs_turned(srcs, false)).last() == last.turned_off().exported());
        assert(srcs_exported(srcs).last() == last.exported());
        assert(srcs_exported(srcs).drop_last() =~= srcs_exported(fore));
        assert(srcs_exported(srcs_turned(srcs, true)).drop_last() =~= srcs_exported(
            srcs_turned(fore, true),
        ));
        assert(srcs_exported(srcs_turned(srcs, false)).drop_last() =~= srcs_exported(
            srcs_turned(fore, false),
        ));
    }
}

/// Neither enabling nor disabling a restream affects where restreams are, and
/// keeps an export valid.
pub proof fn law_switched_restream(before: StateView, n: int, id: RestreamId, on: bool)
    requires
        0 <= n < before.restreams.len(),
    ensures
        ({
            let restream = before.restreams[n];
            let input = if on {
                restream.input.turned_on()
            } else {
                restream.input.turned_off()
            };
            let after = before.with_restream(n, RestreamView { input, ..restream });
            &&& after.restream_at(id) == before.restream_at(id)
            &&& before.exported().is_valid() ==> after.exported().is_valid()
        }),
{
    let restream = before.restreams[n];
    let input = if on {
        restream.input.turned_on()
    } else {
        restream.input.turned_off()
    };
    let after = before.with_restream(n, RestreamView { input, ..restream });
    lemma_find_alike(before.restreams, after.restreams, id, restream_has_id());
    if before.exported().is_valid() {
        lemma_state_valid(before);
        lemma_state_valid(after);
        lemma_switched_input_idents(restream.input);
        assert forall|i: int, j: int| 0 <= i < j < after.restreams.len() implies (
        #[trigger] after.restreams[i]).key != (#[trigger] after.restreams[j]).key by {
            assert(before.restreams[i].key != before.restreams[j].key);
        }
        assert forall|i: int| 0 <= i < after.restreams.len() implies (
        #[trigger] after.restreams[i]).exported().is_valid() by {
            assert(before.restreams[i].exported().is_valid());
        }
    }
}

/// Neither switching an output, nor tuning it or its mixins, that is any change
/// of it which keeps its destination and sources of its mixins, affects the
/// validity of an export.
pub proof fn law_tuned_output_keeps_valid(before: StateView, n: int, m: int, output: OutputView)
    requires
        before.exported().is_valid(),
        0 <= n < before.restreams.len(),
        0 <= m < before.restreams[n].outputs.len(),
        output.dst == before.restreams[n].outputs[m].dst,
        v1::mixin_srcs(mixins_exported(output.mixins)) == v1::mixin_srcs(
            mixins_exported(before.restreams[n].outputs[m].mixins),
        ),
    ensures
        before.with_output(n, m, output).exported().is_valid(),
{
    let outputs = before.restreams[n].outputs;
    let made = outputs.update(m, output);
    lemma_state_valid(before);
    assert(before.restreams[n].exported().is_valid());
    lemma_outputs_valid(outputs);
    lemma_outputs_valid(made);
    assert(outputs[m].exported().is_valid());
    assert forall|i: int, j: int| 0 <= i < j < made.len() implies (#[trigger] made[i]).dst.text != (
    #[trigger] made[j]).dst.text by {
        assert(outputs[i].dst.text != outputs[j].dst.text);
    }
    assert forall|i: int| 0 <= i < made.len() implies (#[trigger] made[i]).exported().is_valid() by {
        if i != m {
            assert(outputs[i].exported().is_valid());
        }
    }
    law_other_outputs_keep_valid(before, n, made);
}

} // verus!
