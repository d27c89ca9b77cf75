//! Application state.

use vstd::prelude::*;

use crate::addresses::UrlView;
use crate::ids::Id;
use crate::laws::fields::law_replaced_restreams;
use crate::lists::{
    lemma_merged_grows, lemma_pairwise_push, lemma_pairwise_update, lemma_replaced, merged,
    replaced, without,
};
use crate::measures::NANOS_IN_MILLI;
use crate::spec::{v1, Spec};

pub mod endpoint;
pub mod input;
pub mod mixin;
pub mod output;
pub mod restream;

pub use crate::addresses::{InputSrcUrl, MixinSrcUrl, OutputDstUrl};
pub use crate::ids::{InputId, MixinId, OutputId, RestreamId};
pub use crate::measures::{Delay, Status, Volume};
pub use crate::names::{InputKey, InputName, Label, RestreamKey};

pub use self::input::{Input, InputSrc, RemoteInputSrc};
pub use self::mixin::Mixin;
pub use self::output::Output;
pub use self::restream::Restream;

use self::mixin::{mixin_position, mixins_view, position_of_mixin, MixinView};
use self::output::{
    find_output, output_has_id, output_position, output_realizes, outputs_view, position_of_output,
    remove_outputs, OutputView,
};
use self::restream::{
    export_restreams, find_restream, lemma_restream_realizes_itself,
    lemma_restreams_realize_themselves, merge_restreams, position_of_restream, remove_restreams,
    replace_restreams, restream_has_id, restream_position, restream_realizes, restream_rules,
    restreams_exported, restreams_realize, restreams_view, RestreamView,
};

verus! {

/// Content of a [`State`].
pub struct StateView {
    pub password_hash: Option<Seq<char>>,
    pub restreams: Seq<RestreamView>,
}

impl OutputView {
    /// This [`Output`] with the `n`th of its [`Mixin`]s substituted.
    pub open spec fn with_mixin(self, n: int, mixin: MixinView) -> Self {
        OutputView { mixins: self.mixins.update(n, mixin), ..self }
    }

    /// [`Output`] added to the given destination: it's disabled, has the
    /// original volume, and is mixed with the given source, if any.
    pub open spec fn added(
        dst: UrlView,
        label: Option<Seq<char>>,
        mix_with: Option<UrlView>,
    ) -> Self {
        OutputView {
            id: Id::Fresh,
            dst,
            label,
            volume: Volume::ORIGIN,
            mixins: match mix_with {
                Some(src) => seq![MixinView::added(src)],
                None => seq![],
            },
            enabled: false,
            status: Status::Offline,
        }
    }
}

impl MixinView {
    /// [`Mixin`] added with the given source: it has the original volume, and
    /// is delayed for 3500 milliseconds if it's a [TeamSpeak] one.
    ///
    /// [TeamSpeak]: https://teamspeak.com
    pub open spec fn added(src: UrlView) -> Self {
        MixinView {
            id: Id::Fresh,
            src,
            volume: Volume::ORIGIN,
            delay: if src.scheme == "ts"@ {
                3500 * NANOS_IN_MILLI as nat
            } else {
                0
            },
            status: Status::Offline,
        }
    }
}

impl RestreamView {
    /// Tells whether there is an [`Output`] with the given destination.
    pub open spec fn has_dst(self, dst: Seq<char>) -> bool {
        exists|i: int|
            0 <= i < self.outputs.len() && (#[trigger] self.outputs[i]).dst.text == dst
    }

    /// This [`Restream`] with other [`Output`]s.
    pub open spec fn with_outputs(self, outputs: Seq<OutputView>) -> Self {
        RestreamView { outputs, ..self }
    }
}

impl StateView {
    /// This [`State`] with other [`Restream`]s.
    pub open spec fn with_restreams(self, restreams: Seq<RestreamView>) -> Self {
        StateView { restreams, ..self }
    }

    /// This [`State`] with the `n`th of its [`Restream`]s substituted.
    pub open spec fn with_restream(self, n: int, restream: RestreamView) -> Self {
        self.with_restreams(self.restreams.update(n, restream))
    }

    /// This [`State`] with the `m`th of [`Output`]s of the `n`th [`Restream`]
    /// substituted.
    pub open spec fn with_output(self, n: int, m: int, output: OutputView) -> Self {
        let restream = self.restreams[n];
        self.with_restream(n, restream.with_outputs(restream.outputs.update(m, output)))
    }

    /// Tells whether there is a [`Restream`] with the given key.
    pub open spec fn uses_key(self, key: Seq<char>) -> bool {
        exists|i: int| 0 <= i < self.restreams.len() && (#[trigger] self.restreams[i]).key == key
    }

    /// Tells whether there is a [`Restream`] with the given key which has
    /// another ID than the given one.
    pub open spec fn uses_key_besides(self, key: Seq<char>, id: RestreamId) -> bool {
        exists|i: int|
            0 <= i < self.restreams.len() && (#[trigger] self.restreams[i]).key == key
                && self.restreams[i].id != Id::Known(id.0)
    }

    /// Position of the first [`Restream`] with the given ID.
    pub open spec fn restream_at(self, id: RestreamId) -> Option<int> {
        restream_position(self.restreams, id)
    }

    /// Position of the first [`Output`] with the given ID in the first
    /// [`Restream`] with the given ID, along with the position of the latter.
    pub open spec fn output_at(self, id: RestreamId, output_id: OutputId) -> Option<(int, int)> {
        match self.restream_at(id) {
            Some(n) => match output_position(self.restreams[n].outputs, output_id) {
                Some(m) => Some((n, m)),
                None => None,
            },
            None => None,
        }
    }

    /// Position of the first [`Mixin`] with the given ID in the [`Output`] at
    /// [`StateView::output_at`], along with the position of the latter.
    pub open spec fn mixin_at(
        self,
        id: RestreamId,
        output_id: OutputId,
        mixin_id: MixinId,
    ) -> Option<(int, int, int)> {
        match self.output_at(id, output_id) {
            Some((n, m)) => match mixin_position(
                self.restreams[n].outputs[m].mixins,
                mixin_id,
            ) {
                Some(k) => Some((n, m, k)),
                None => None,
            },
            None => None,
        }
    }

    /// This [`State`] with the given [`v1::Spec`] applied.
    ///
    /// If `replace` is `true` then [`State::restreams`] are replaced with new
    /// ones, otherwise new ones are merged into them.
    pub open spec fn applied(self, new: v1::SpecView, replace: bool) -> Self {
        self.with_restreams(
            if replace {
                replaced(self.restreams, new.restreams, restream_rules(replace))
            } else {
                merged(self.restreams, new.restreams, restream_rules(replace))
            },
        )
    }

    /// This [`State`] exported.
    pub open spec fn exported(self) -> v1::SpecView {
        v1::SpecView { restreams: restreams_exported(self.restreams) }
    }

    /// Tells whether this [`State`] is the `expected` one.
    pub open spec fn realizes(self, expected: Self) -> bool {
        &&& self.password_hash == expected.password_hash
        &&& restreams_realize(self.restreams, expected.restreams)
    }
}

/// Application's state.
#[derive(Clone, Debug, PartialEq, Eq)]
pub struct State {
    /// [`argon2`] hash of password which protects access to this application's
    /// public APIs.
    ///
    /// [`argon2`]: https://en.wikipedia.org/wiki/Argon2
    pub password_hash: Option<String>,
    /// All [`Restream`]s performed by this application.
    pub restreams: Vec<Restream>,
}

impl Default for State {
    fn default() -> (state: Self)
        ensures
            state@ == (StateView { password_hash: None, restreams: seq![] }),
    {
        let state = State { password_hash: None, restreams: Vec::new() };
        assert(state@.restreams =~= seq![]);
        state
    }
}

impl State {
    /// Content of this [`State`].
    pub open spec fn view(&self) -> StateView {
        StateView {
            password_hash: match self.password_hash {
                Some(hash) => Some(hash@),
                None => None,
            },
            restreams: restreams_view(self.restreams@),
        }
    }

    /// Applies the given [`Spec`] to this [`State`].
    ///
    /// If `replace` is `true` then all the [`Restream`]s, [`Restream::outputs`]
    /// and [`Output::mixins`] will be replaced with new ones, otherwise new
    /// ones will be merged with already existing ones.
    pub fn apply(&mut self, new: Spec, replace: bool)
        ensures
            final(self)@.realizes(old(self)@.applied(new@, replace)),
            final(self).password_hash == old(self).password_hash,
            replace ==> final(self).restreams@.len() == new@.restreams.len(),
            replace ==> forall|i: int|
                0 <= i < new@.restreams.len() ==> {
                    let restream = #[trigger] final(self).restreams@[i];
                    &&& restream.key@ == new@.restreams[i].key
                    &&& restream@.label == new@.restreams[i].label
                    &&& restream.input@.exported() == new@.restreams[i].input
                    &&& restream.outputs@.len() == new@.restreams[i].outputs.len()
                },
            !replace ==> final(self).restreams@.len() >= old(self).restreams@.len(),
    {
        let new = new.into_v1();
        proof {
            lemma_restreams_realize_themselves(self.restreams@);
        }
        let ghost was = restreams_view(self.restreams@);
        if replace {
            let mut olds: Vec<Restream> = Vec::new();
            std::mem::swap(&mut self.restreams, &mut olds);
            self.restreams = replace_restreams(olds, new.restreams, replace, Ghost(was));
        } else {
            merge_restreams(&mut self.restreams, new.restreams, replace, Ghost(was));
        }
        proof {
            let rules = restream_rules(replace);
            lemma_replaced(was, new@.restreams, rules);
            lemma_merged_grows(was, new@.restreams, rules);
            if replace {
                law_replaced_restreams(old(self)@, new@, self@);
                assert forall|i: int| 0 <= i < new@.restreams.len() implies {
                    let restream = #[trigger] self.restreams@[i];
                    &&& restream.key@ == new@.restreams[i].key
                    &&& restream@.label == new@.restreams[i].label
                    &&& restream.input@.exported() == new@.restreams[i].input
                    &&& restream.outputs@.len() == new@.restreams[i].outputs.len()
                } by {
                    assert(self@.restreams[i].key == new@.restreams[i].key);
                }
            }
        }
    }

    /// Exports this [`State`] as a [`v1::Spec`].
    #[must_use]
    pub fn export(&self) -> (spec: Spec)
        ensures
            spec@ == self@.exported(),
            spec@.restreams.len() == self.restreams@.len(),
            forall|i: int|
                0 <= i < self.restreams@.len() ==> {
                    let restream = #[trigger] spec@.restreams[i];
                    &&& restream.key == self.restreams@[i].key@
                    &&& restream.label == self.restreams@[i]@.label
                    &&& restream.input == self.restreams@[i].input@.exported()
                    &&& restream.outputs.len() == self.restreams@[i].outputs@.len()
                },
    {
        Spec::from(v1::Spec { restreams: export_restreams(&self.restreams) })
    }
}

/// Key of a [`Restream`] is used already by another one.
#[derive(Clone, Debug, PartialEq, Eq)]
pub struct KeyIsUsed {
    /// The key which is used.
    pub key: RestreamKey,
}

impl KeyIsUsed {
    /// Describes this error in words.
    #[must_use]
    pub fn message(&self) -> (text: String)
        ensures
            text@ == "Restream.key '"@ + self.key@ + "' is used already"@,
    {
        "Restream.key '".to_owned().concat(self.key.as_str()).concat("' is used already")
    }
}

impl State {
    /// Adds a new [`Restream`] by the given `spec` to this [`State`].
    ///
    /// # Errors
    ///
    /// If this [`State`] has a [`Restream`] with such `key` already.
    pub fn add_restream(&mut self, spec: v1::Restream) -> (added: Result<(), KeyIsUsed>)
        ensures
            added is Err <==> old(self)@.uses_key(spec@.key),
            match added {
                Ok(()) => final(self)@.realizes(
                    old(self)@.with_restreams(
                        old(self)@.restreams.push(RestreamView::fresh(spec@)),
                    ),
                ),
                Err(error) => error.key@ == spec@.key && final(self)@ == old(self)@,
            },
            added is Ok ==> {
                let last = final(self).restreams@.last();
                &&& final(self).password_hash == old(self).password_hash
                &&& final(self).restreams@.len() == old(self).restreams@.len() + 1
                &&& final(self).restreams@.drop_last() == old(self).restreams@
                &&& last.key == spec.key
                &&& last.label == spec.label
                &&& last.input.key == spec.input.key
                &&& last.input.enabled == spec.input.enabled
                &&& last.input.srcs@.len() == spec.input.srcs@.len()
                &&& last.outputs@.len() == spec.outputs@.len()
            },
    {
        let ghost was = restreams_view(self.restreams@);
        match find_restream(&self.restreams, &spec.key) {
            Some(n) => {
                assert(was[n as int].key == spec@.key);
                Err(KeyIsUsed { key: spec.key })
            },
            None => {
                let made = Restream::new(spec);
                proof {
                    lemma_restreams_realize_themselves(self.restreams@);
                    lemma_pairwise_push(
                        was,
                        was,
                        made@,
                        RestreamView::fresh(spec@),
                        restream_realizes(),
                    );
                }
                self.restreams.push(made);
                assert(restreams_view(self.restreams@) == was.push(made@));
                assert(self.restreams@.drop_last() =~= old(self).restreams@);
                Ok(())
            },
        }
    }

    /// Edits a [`Restream`] of this [`State`] with the given `id` by the given
    /// `spec`.
    ///
    /// Returns [`None`] if there is no [`Restream`] with such `id` in this
    /// [`State`].
    ///
    /// # Errors
    ///
    /// If this [`State`] has another [`Restream`] with such `key` already.
    pub fn edit_restream(&mut self, id: RestreamId, spec: v1::Restream) -> (edited: Result<
        Option<()>,
        KeyIsUsed,
    >)
        ensures
            edited is Err <==> old(self)@.uses_key_besides(spec@.key, id),
            match edited {
                Ok(edited) => match old(self)@.restream_at(id) {
                    Some(n) => {
                        &&& edited is Some
                        &&& final(self)@.realizes(
                            old(self)@.with_restream(
                                n,
                                old(self)@.restreams[n].applied(spec@, false),
                            ),
                        )
                    },
                    None => edited is None && final(self)@ == old(self)@,
                },
                Err(error) => error.key@ == spec@.key && final(self)@ == old(self)@,
            },
            edited matches Ok(Some(_)) ==> {
                let n = old(self)@.restream_at(id)->0;
                let (was, now) = (old(self).restreams@[n], final(self).restreams@[n]);
                &&& final(self).password_hash == old(self).password_hash
                &&& final(self).restreams@.len() == old(self).restreams@.len()
                &&& forall|i: int|
                    #![trigger final(self).restreams@[i]]
                    0 <= i < old(self).restreams@.len() && i != n ==> final(self).restreams@[i]
                        == old(self).restreams@[i]
                &&& now.key == spec.key
                &&& now.label == spec.label
                &&& now.id == was.id
                &&& now.input.key == spec.input.key
                &&& now.input.enabled == spec.input.enabled
                &&& now.input@.exported() == spec.input@
                &&& now.input.id == was.input.id
                &&& now.outputs@.len() >= was.outputs@.len()
            },
    {
        let ghost was = restreams_view(self.restreams@);
        let mut n: usize = 0;
        while n < self.restreams.len()
            invariant
                *self == *old(self),
                was == restreams_view(self.restreams@),
                n <= self.restreams@.len(),
                forall|i: int|
                    0 <= i < n && (#[trigger] was[i]).id != Id::Known(id.0) ==> was[i].key
                        != spec@.key,
            decreases self.restreams@.len() - n,
        {
            if !(self.restreams[n].id == id) && self.restreams[n].key == spec.key {
                assert(was[n as int].id != Id::Known(id.0) && was[n as int].key == spec@.key);
                return Err(KeyIsUsed { key: spec.key });
            }
            n = n + 1;
        }
        match position_of_restream(&self.restreams, id) {
            Some(n) => {
                self.restreams[n].apply(spec, false);
                proof {
                    let made = self.restreams@[n as int]@;
                    lemma_restreams_realize_themselves(old(self).restreams@);
                    lemma_pairwise_update(
                        was,
                        was,
                        n as int,
                        made,
                        was[n as int].applied(spec@, false),
                        restream_realizes(),
                    );
                    assert(restreams_view(self.restreams@) == was.update(n as int, made));
                }
                Ok(Some(()))
            },
            None => Ok(None),
        }
    }

    /// Removes a [`Restream`] with the given `id` from this [`State`].
    ///
    /// Returns [`None`] if there is no [`Restream`] with such `id` in this
    /// [`State`].
    pub fn remove_restream(&mut self, id: RestreamId) -> (removed: Option<()>)
        ensures
            final(self)@ == old(self)@.with_restreams(
                without(old(self)@.restreams, id, restream_has_id()),
            ),
            removed is Some <==> old(self)@.restream_at(id) is Some,
    {
        if remove_restreams(&mut self.restreams, id) {
            Some(())
        } else {
            None
        }
    }

    /// Enables a [`Restream`] with the given `id` in this [`State`].
    ///
    /// Returns `true` if it has been enabled, or `false` if it already has been
    /// enabled, or [`None`] if it doesn't exist.
    #[must_use]
    pub fn enable_restream(&mut self, id: RestreamId) -> (enabled: Option<bool>)
        ensures
            match old(self)@.restream_at(id) {
                Some(n) => {
                    let restream = old(self)@.restreams[n];
                    &&& enabled == Some(!restream.input.is_on())
                    &&& final(self)@ == old(self)@.with_restream(
                        n,
                        RestreamView { input: restream.input.turned_on(), ..restream },
                    )
                },
                None => enabled is None && final(self)@ == old(self)@,
            },
            enabled is Some ==> {
                let n = old(self)@.restream_at(id)->0;
                let (was, now) = (old(self).restreams@[n].input, final(self).restreams@[n].input);
                &&& now.enabled
                &&& forall|path: Seq<int>|
                    (#[trigger] now@.at(path)) matches Some(input) ==> input.enabled
                &&& enabled->0 <==> exists|path: Seq<int>|
                    (#[trigger] was@.at(path)) matches Some(input) && !input.enabled
            },
    {
        match position_of_restream(&self.restreams, id) {
            Some(n) => {
                let changed = self.restreams[n].input.enable();
                proof {
                    let was = old(self)@.restreams;
                    let restream = was[n as int];
                    assert(self@.restreams =~= was.update(
                        n as int,
                        RestreamView { input: restream.input.turned_on(), ..restream },
                    ));
                }
                Some(changed)
            },
            None => None,
        }
    }

    /// Disables a [`Restream`] with the given `id` in this [`State`].
    ///
    /// Returns `true` if it has been disabled, or `false` if it already has
    /// been disabled, or [`None`] if it doesn't exist.
    #[must_use]
    pub fn disable_restream(&mut self, id: RestreamId) -> (disabled: Option<bool>)
        ensures
            match old(self)@.restream_at(id) {
                Some(n) => {
                    let restream = old(self)@.restreams[n];
                    &&& disabled == Some(!restream.input.is_off())
                    &&& final(self)@ == old(self)@.with_restream(
                        n,
                        RestreamView { input: restream.input.turned_off(), ..restream },
                    )
                },
                None => disabled is None && final(self)@ == old(self)@,
            },
            disabled is Some ==> {
                let n = old(self)@.restream_at(id)->0;
                let (was, now) = (old(self).restreams@[n].input, final(self).restreams@[n].input);
                &&& !now.enabled
                &&& forall|path: Seq<int>|
                    (#[trigger] now@.at(path)) matches Some(input) ==> !input.enabled
                        && input.srs_publisher_id is None && input.srs_player_ids.len() == 0
                &&& disabled->0 <==> exists|path: Seq<int>|
                    (#[trigger] was@.at(path)) matches Some(input) && input.enabled
            },
    {
        match position_of_restream(&self.restreams, id) {
            Some(n) => {
                let changed = self.restreams[n].input.disable();
                proof {
                    let was = old(self)@.restreams;
                    let restream = was[n as int];
                    assert(self@.restreams =~= was.update(
                        n as int,
                        RestreamView { input: restream.input.turned_off(), ..restream },
                    ));
                }
                Some(changed)
            },
            None => None,
        }
    }
}

/// URL of an optional source of a [`Mixin`].
pub open spec fn src_view(src: Option<MixinSrcUrl>) -> Option<UrlView> {
    match src {
        Some(src) => Some(src@),
        None => None,
    }
}

/// [`Output`]s either all enabled, or all disabled.
pub open spec fn outputs_switched(outputs: Seq<OutputView>, enabled: bool) -> Seq<OutputView> {
    Seq::new(outputs.len(), |i: int| OutputView { enabled, ..outputs[i] })
}

/// Either enables or disables all the `outputs`.
///
/// Returns `false` if all of them are such already.
fn switch_outputs(outputs: &mut Vec<Output>, enabled: bool) -> (changed: bool)
    ensures
        outputs_view(final(outputs)@) == outputs_switched(outputs_view(old(outputs)@), enabled),
        changed == exists|i: int|
            0 <= i < old(outputs)@.len() && (#[trigger] outputs_view(old(outputs)@)[i]).enabled
                != enabled,
{
    let ghost was = outputs@;
    let mut changed = false;
    let mut n: usize = 0;
    while n < outputs.len()
        invariant
            was == old(outputs)@,
            n <= outputs@.len(),
            outputs@.len() == was.len(),
            forall|i: int|
                0 <= i < n ==> #[trigger] outputs@[i] == (Output { enabled, ..was[i] }),
            forall|i: int| n <= i < was.len() ==> #[trigger] outputs@[i] == was[i],
            changed == exists|i: int|
                0 <= i < n && (#[trigger] outputs_view(was)[i]).enabled != enabled,
        decreases outputs@.len() - n,
    {
        assert(outputs_view(was)[n as int].enabled == outputs@[n as int].enabled);
        if outputs[n].enabled != enabled {
            outputs[n].enabled = enabled;
            changed = true;
        }
        n = n + 1;
    }
    assert(outputs_view(outputs@) =~= outputs_switched(outputs_view(was), enabled));
    changed
}

/// Substituting an [`Output`] by itself changes nothing.
proof fn lemma_output_substituted(state: State, n: int, m: int, output: OutputView)
    requires
        0 <= n < state.restreams@.len(),
        0 <= m < state.restreams@[n].outputs@.len(),
        output == state.restreams@[n].outputs@[m]@,
    ensures
        state@.with_output(n, m, output) == state@,
{
    let restream = state@.restreams[n];
    assert(restream.outputs.update(m, output) =~= restream.outputs);
    assert(state@.restreams.update(n, restream) =~= state@.restreams);
}

/// Setting [`Output`]s of a [`Restream`] substitutes them.
proof fn lemma_outputs_set(before: State, after: State, n: int)
    requires
        0 <= n < before.restreams@.len(),
        after.password_hash == before.password_hash,
        after.restreams@ == before.restreams@.update(n, after.restreams@[n]),
        after.restreams@[n] == (Restream {
            outputs: after.restreams@[n].outputs,
            ..before.restreams@[n]
        }),
    ensures
        after@ == before@.with_restream(
            n,
            before@.restreams[n].with_outputs(outputs_view(after.restreams@[n].outputs@)),
        ),
{
    assert(after@.restreams =~= before@.restreams.update(
        n,
        before@.restreams[n].with_outputs(outputs_view(after.restreams@[n].outputs@)),
    ));
}

/// Setting an [`Output`] of a [`Restream`] substitutes it.
proof fn lemma_output_set(before: State, after: State, n: int, m: int)
    requires
        0 <= n < before.restreams@.len(),
        0 <= m < before.restreams@[n].outputs@.len(),
        after.password_hash == before.password_hash,
        after.restreams@ == before.restreams@.update(n, after.restreams@[n]),
        after.restreams@[n] == (Restream {
            outputs: after.restreams@[n].outputs,
            ..before.restreams@[n]
        }),
        after.restreams@[n].outputs@ == before.restreams@[n].outputs@.update(
            m,
            after.restreams@[n].outputs@[m],
        ),
    ensures
        after@ == before@.with_output(n, m, after.restreams@[n].outputs@[m]@),
{
    lemma_outputs_set(before, after, n);
    assert(outputs_view(after.restreams@[n].outputs@) =~= before@.restreams[n].outputs.update(
        m,
        after.restreams@[n].outputs@[m]@,
    ));
}

/// Setting a [`Mixin`] of an [`Output`] substitutes it.
proof fn lemma_mixin_set(before: State, after: State, n: int, m: int, k: int)
    requires
        0 <= n < before.restreams@.len(),
        0 <= m < before.restreams@[n].outputs@.len(),
        0 <= k < before.restreams@[n].outputs@[m].mixins@.len(),
        after.password_hash == before.password_hash,
        after.restreams@ == before.restreams@.update(n, after.restreams@[n]),
        after.restreams@[n] == (Restream {
            outputs: after.restreams@[n].outputs,
            ..before.restreams@[n]
        }),
        after.restreams@[n].outputs@ == before.restreams@[n].outputs@.update(
            m,
            after.restreams@[n].outputs@[m],
        ),
        after.restreams@[n].outputs@[m] == (Output {
            mixins: after.restreams@[n].outputs@[m].mixins,
            ..before.restreams@[n].outputs@[m]
        }),
        after.restreams@[n].outputs@[m].mixins@ == before.restreams@[n].outputs@[m].mixins@.update(
            k,
            after.restreams@[n].outputs@[m].mixins@[k],
        ),
    ensures
        after@ == before@.with_output(
            n,
            m,
            before@.restreams[n].outputs[m].with_mixin(
                k,
                after.restreams@[n].outputs@[m].mixins@[k]@,
            ),
        ),
{
    lemma_output_set(before, after, n, m);
    assert(mixins_view(after.restreams@[n].outputs@[m].mixins@)
        =~= before@.restreams[n].outputs[m].mixins.update(
        k,
        after.restreams@[n].outputs@[m].mixins@[k]@,
    ));
}

impl Mixin {
    /// Creates a [`Mixin`] with the given ID which is added with the given
    /// source.
    #[must_use]
    pub fn with_src(id: MixinId, src: MixinSrcUrl) -> (made: Self)
        ensures
            made@ == (MixinView { id: Id::Known(id.0), ..MixinView::added(src@) }),
            made.id == id,
            made.src == src,
            made.volume@ == 100,
            made.delay@ == if src@.scheme == "ts"@ {
                3_500_000_000nat
            } else {
                0
            },
            made.status == Status::Offline,
    {
        let delay = if src.url().has_scheme("ts") {
            Delay::from_millis(3500u64).unwrap_or_default()
        } else {
            Delay::default()
        };
        Self { id, src, volume: Volume::origin(), delay, status: Status::Offline }
    }
}

impl Output {
    /// Creates an [`Output`] with the given ID which is added to the given
    /// destination, being mixed with the given [`Mixin`], if any.
    #[must_use]
    pub fn with_dst(
        id: OutputId,
        dst: OutputDstUrl,
        label: Option<Label>,
        mixin: Option<Mixin>,
    ) -> (made: Self)
        ensures
            made@ == (OutputView {
                id: Id::Known(id.0),
                mixins: match mixin {
                    Some(mixin) => seq![mixin@],
                    None => seq![],
                },
                ..OutputView::added(dst@, v1::label_view(label), None)
            }),
            made.id == id,
            made.dst == dst,
            made.label == label,
            made.volume@ == 100,
            made.mixins@ == match mixin {
                Some(mixin) => seq![mixin],
                None => seq![],
            },
            !made.enabled,
            made.status == Status::Offline,
    {
        let mut mixins: Vec<Mixin> = Vec::new();
        if let Some(mixin) = mixin {
            mixins.push(mixin);
        }
        let made = Self {
            id,
            dst,
            label,
            volume: Volume::origin(),
            mixins,
            enabled: false,
            status: Status::Offline,
        };
        assert(made@.mixins =~= match mixin {
            Some(mixin) => seq![mixin@],
            None => seq![],
        });
        made
    }
}

impl State {
    /// Removes [`Output`] from the specified [`Restream`] of this [`State`].
    ///
    /// Returns `true` if it has been removed, or `false` if doesn't exist.
    /// Returns [`None`] if no [`Restream`] with `input_id` exists.
    #[must_use]
    pub fn remove_output(&mut self, input_id: RestreamId, output_id: OutputId) -> (removed: Option<
        bool,
    >)
        ensures
            match old(self)@.restream_at(input_id) {
                Some(n) => {
                    let restream = old(self)@.restreams[n];
                    &&& removed == Some(output_position(restream.outputs, output_id) is Some)
                    &&& final(self)@ == old(self)@.with_restream(
                        n,
                        restream.with_outputs(
                            without(restream.outputs, output_id, output_has_id()),
                        ),
                    )
                },
                None => removed is None && final(self)@ == old(self)@,
            },
    {
        match position_of_restream(&self.restreams, input_id) {
            Some(n) => {
                let removed = remove_outputs(&mut self.restreams[n].outputs, output_id);
                proof {
                    lemma_outputs_set(*old(self), *self, n as int);
                }
                Some(removed)
            },
            None => None,
        }
    }

    /// Enables [`Output`] in the specified [`Restream`] of this [`State`].
    ///
    /// Returns `true` if it has been enabled, or `false` if it already has been
    /// enabled.
    /// Returns [`None`] if no [`Restream`] with `input_id` exists, or no
    /// [`Output`] with `output_id` exists.
    #[must_use]
    pub fn enable_output(
        &mut self,
        input_id: RestreamId,
        output_id: OutputId,
    ) -> (enabled: Option<bool>)
        ensures
            match old(self)@.output_at(input_id, output_id) {
                Some((n, m)) => {
                    let output = old(self)@.restreams[n].outputs[m];
                    &&& enabled == Some(!output.enabled)
                    &&& final(self)@ == old(self)@.with_output(
                        n,
                        m,
                        OutputView { enabled: true, ..output },
                    )
                },
                None => enabled is None && final(self)@ == old(self)@,
            },
    {
        let n = match position_of_restream(&self.restreams, input_id) {
            Some(n) => n,
            None => return None,
        };
        let m = match position_of_output(&self.restreams[n].outputs, output_id) {
            Some(m) => m,
            None => return None,
        };
        let ghost was = self@;
        let ghost output = was.restreams[n as int].outputs[m as int];
        if self.restreams[n].outputs[m].enabled {
            proof {
                lemma_output_substituted(*self, n as int, m as int, output);
            }
            return Some(false);
        }
        self.restreams[n].outputs[m].enabled = true;
        proof {
            lemma_output_set(*old(self), *self, n as int, m as int);
        }
        Some(true)
    }

    /// Enables all [`Output`]s in the specified [`Restream`] of this [`State`].
    ///
    /// Returns `true` if at least one has been enabled, or `false` if all of
    /// them already have been enabled.
    /// Returns [`None`] if no [`Restream`] with `input_id` exists.
    #[must_use]
    pub fn enable_all_outputs(&mut self, input_id: RestreamId) -> (enabled: Option<bool>)
        ensures
            match old(self)@.restream_at(input_id) {
                Some(n) => {
                    let restream = old(self)@.restreams[n];
                    &&& enabled == Some(
                        exists|i: int|
                            0 <= i < restream.outputs.len() && !(
                            #[trigger] restream.outputs[i]).enabled,
                    )
                    &&& final(self)@ == old(self)@.with_restream(
                        n,
                        restream.with_outputs(outputs_switched(restream.outputs, true)),
                    )
                },
                None => enabled is None && final(self)@ == old(self)@,
            },
    {
        match position_of_restream(&self.restreams, input_id) {
            Some(n) => {
                let changed = switch_outputs(&mut self.restreams[n].outputs, true);
                proof {
                    lemma_outputs_set(*old(self), *self, n as int);
                }
                Some(changed)
            },
            None => None,
        }
    }

    /// Disables [`Output`] in the specified [`Restream`] of this [`State`].
    ///
    /// Returns `true` if it has been disabled, or `false` if it already has been
    /// disabled.
    /// Returns [`None`] if no [`Restream`] with `input_id` exists, or no
    /// [`Output`] with `output_id` exists.
    #[must_use]
    pub fn disable_output(
        &mut self,
        input_id: RestreamId,
        output_id: OutputId,
    ) -> (disabled: Option<bool>)
        ensures
            match old(self)@.output_at(input_id, output_id) {
                Some((n, m)) => {
                    let output = old(self)@.restreams[n].outputs[m];
                    &&& disabled == Some(output.enabled)
                    &&& final(self)@ == old(self)@.with_output(
                        n,
                        m,
                        OutputView { enabled: false, ..output },
                    )
                },
                None => disabled is None && final(self)@ == old(self)@,
            },
    {
        let n = match position_of_restream(&self.restreams, input_id) {
            Some(n) => n,
            None => return None,
        };
        let m = match position_of_output(&self.restreams[n].outputs, output_id) {
            Some(m) => m,
            None => return None,
        };
        let ghost was = self@;
        let ghost output = was.restreams[n as int].outputs[m as int];
        if !self.restreams[n].outputs[m].enabled {
            proof {
                lemma_output_substituted(*self, n as int, m as int, output);
            }
            return Some(false);
        }
        self.restreams[n].outputs[m].enabled = false;
        proof {
            lemma_output_set(*old(self), *self, n as int, m as int);
        }
        Some(true)
    }

    /// Disables all [`Output`]s in the specified [`Restream`] of this [`State`].
    ///
    /// Returns `true` if at least one has been disabled, or `false` if all of
    /// them already have been disabled.
    /// Returns [`None`] if no [`Restream`] with `input_id` exists.
    #[must_use]
    pub fn disable_all_outputs(&mut self, input_id: RestreamId) -> (disabled: Option<bool>)
        ensures
            match old(self)@.restream_at(input_id) {
                Some(n) => {
                    let restream = old(self)@.restreams[n];
                    &&& disabled == Some(
                        exists|i: int|
                            0 <= i < restream.outputs.len() && (
                            #[trigger] restream.outputs[i]).enabled,
                    )
                    &&& final(self)@ == old(self)@.with_restream(
                        n,
                        restream.with_outputs(outputs_switched(restream.outputs, false)),
                    )
                },
                None => disabled is None && final(self)@ == old(self)@,
            },
    {
        match position_of_restream(&self.restreams, input_id) {
            Some(n) => {
                let changed = switch_outputs(&mut self.restreams[n].outputs, false);
                proof {
                    lemma_outputs_set(*old(self), *self, n as int);
                }
                Some(changed)
            },
            None => None,
        }
    }

    /// Tunes a [`Volume`] rate of the specified [`Output`] or its [`Mixin`] in
    /// this [`State`].
    ///
    /// Returns `true` if a [`Volume`] rate has been changed, or `false` if it
    /// has the same value already.
    /// Returns [`None`] if no [`Restream`] with `input_id` exists, or no
    /// [`Output`] with `output_id` exists, or no [`Mixin`] with `mixin_id`
    /// exists.
    #[must_use]
    pub fn tune_volume(
        &mut self,
        input_id: RestreamId,
        output_id: OutputId,
        mixin_id: Option<MixinId>,
        volume: Volume,
    ) -> (tuned: Option<bool>)
        ensures
            match mixin_id {
                None => match old(self)@.output_at(input_id, output_id) {
                    Some((n, m)) => {
                        let output = old(self)@.restreams[n].outputs[m];
                        &&& tuned == Some(output.volume != volume@)
                        &&& final(self)@ == old(self)@.with_output(
                            n,
                            m,
                            OutputView { volume: volume@, ..output },
                        )
                    },
                    None => tuned is None && final(self)@ == old(self)@,
                },
                Some(mixin_id) => match old(self)@.mixin_at(input_id, output_id, mixin_id) {
                    Some((n, m, k)) => {
                        let output = old(self)@.restreams[n].outputs[m];
                        let mixin = output.mixins[k];
                        &&& tuned == Some(mixin.volume != volume@)
                        &&& final(self)@ == old(self)@.with_output(
                            n,
                            m,
                            output.with_mixin(k, MixinView { volume: volume@, ..mixin }),
                        )
                    },
                    None => tuned is None && final(self)@ == old(self)@,
                },
            },
    {
        let n = match position_of_restream(&self.restreams, input_id) {
            Some(n) => n,
            None => return None,
        };
        let m = match position_of_output(&self.restreams[n].outputs, output_id) {
            Some(m) => m,
            None => return None,
        };
        match mixin_id {
            None => {
                let changed = !(self.restreams[n].outputs[m].volume == volume);
                self.restreams[n].outputs[m].volume = volume;
                proof {
                    lemma_output_set(*old(self), *self, n as int, m as int);
                }
                Some(changed)
            },
            Some(mixin_id) => {
                let k = match position_of_mixin(&self.restreams[n].outputs[m].mixins, mixin_id) {
                    Some(k) => k,
                    None => return None,
                };
                let changed = !(self.restreams[n].outputs[m].mixins[k].volume == volume);
                self.restreams[n].outputs[m].mixins[k].volume = volume;
                proof {
                    lemma_mixin_set(*old(self), *self, n as int, m as int, k as int);
                }
                Some(changed)
            },
        }
    }

    /// Tunes a [`Delay`] of the specified [`Mixin`] in this [`State`].
    ///
    /// Returns `true` if a [`Delay`] has been changed, or `false` if it has the
    /// same value already.
    /// Returns [`None`] if no [`Restream`] with `input_id` exists, or no
    /// [`Output`] with `output_id` exists, or no [`Mixin`] with `mixin_id`
    /// exists.
    #[must_use]
    pub fn tune_delay(
        &mut self,
        input_id: RestreamId,
        output_id: OutputId,
        mixin_id: MixinId,
        delay: Delay,
    ) -> (tuned: Option<bool>)
        ensures
            match old(self)@.mixin_at(input_id, output_id, mixin_id) {
                Some((n, m, k)) => {
                    let output = old(self)@.restreams[n].outputs[m];
                    let mixin = output.mixins[k];
                    &&& tuned == Some(mixin.delay != delay@)
                    &&& final(self)@ == old(self)@.with_output(
                        n,
                        m,
                        output.with_mixin(k, MixinView { delay: delay@, ..mixin }),
                    )
                },
                None => tuned is None && final(self)@ == old(self)@,
            },
    {
        let n = match position_of_restream(&self.restreams, input_id) {
            Some(n) => n,
            None => return None,
        };
        let m = match position_of_output(&self.restreams[n].outputs, output_id) {
            Some(m) => m,
            None => return None,
        };
        let k = match position_of_mixin(&self.restreams[n].outputs[m].mixins, mixin_id) {
            Some(k) => k,
            None => return None,
        };
        let changed = !(self.restreams[n].outputs[m].mixins[k].delay == delay);
        self.restreams[n].outputs[m].mixins[k].delay = delay;
        proof {
            lemma_mixin_set(*old(self), *self, n as int, m as int, k as int);
        }
        Some(changed)
    }

    /// Adds new [`Output`] to the specified [`Restream`] of this [`State`].
    ///
    /// Returns `true` if it has been added, or `false` if there is an
    /// [`Output`] with such destination already.
    /// Returns [`None`] if no [`Restream`] with `input_id` exists.
    #[must_use]
    pub fn add_new_output(
        &mut self,
        input_id: RestreamId,
        output_dst: OutputDstUrl,
        label: Option<Label>,
        mix_with: Option<MixinSrcUrl>,
    ) -> (added: Option<bool>)
        ensures
            match old(self)@.restream_at(input_id) {
                Some(n) => {
                    let restream = old(self)@.restreams[n];
                    if restream.has_dst(output_dst@.text) {
                        added == Some(false) && final(self)@ == old(self)@
                    } else {
                        &&& added == Some(true)
                        &&& final(self)@.realizes(
                            old(self)@.with_restream(
                                n,
                                restream.with_outputs(
                                    restream.outputs.push(
                                        OutputView::added(
                                            output_dst@,
                                            v1::label_view(label),
                                            src_view(mix_with),
                                        ),
                                    ),
                                ),
                            ),
                        )
                    }
                },
                None => added is None && final(self)@ == old(self)@,
            },
            added == Some(true) ==> {
                let n = old(self)@.restream_at(input_id)->0;
                let (was, now) = (old(self).restreams@[n], final(self).restreams@[n]);
                let last = now.outputs@.last();
                &&& final(self).password_hash == old(self).password_hash
                &&& final(self).restreams@.len() == old(self).restreams@.len()
                &&& forall|i: int|
                    #![trigger final(self).restreams@[i]]
                    0 <= i < old(self).restreams@.len() && i != n ==> final(self).restreams@[i]
                        == old(self).restreams@[i]
                &&& now.id == was.id
                &&& now.key == was.key
                &&& now.label == was.label
                &&& now.input == was.input
                &&& now.outputs@.len() == was.outputs@.len() + 1
                &&& now.outputs@.drop_last() == was.outputs@
                &&& last.dst == output_dst
                &&& last.label == label
                &&& last.volume@ == 100
                &&& !last.enabled
                &&& last.status == Status::Offline
                &&& mix_with is None ==> last.mixins@.len() == 0
                &&& mix_with matches Some(src) ==> {
                    &&& last.mixins@.len() == 1
                    &&& last.mixins@[0].src == src
                    &&& last.mixins@[0].volume@ == 100
                    &&& last.mixins@[0].delay@ == if src@.scheme == "ts"@ {
                        3_500_000_000nat
                    } else {
                        0
                    }
                    &&& last.mixins@[0].status == Status::Offline
                }
            },
    {
        let n = match position_of_restream(&self.restreams, input_id) {
            Some(n) => n,
            None => return None,
        };
        let ghost was = self@.restreams[n as int];
        if let Some(m) = find_output(&self.restreams[n].outputs, &output_dst) {
            assert(was.outputs[m as int].dst.text == output_dst@.text);
            return Some(false);
        }
        let ghost wanted = OutputView::added(
            output_dst@,
            v1::label_view(label),
            src_view(mix_with),
        );
        let mixin = match mix_with {
            Some(src) => Some(Mixin::with_src(MixinId::random(), src)),
            None => None,
        };
        let output = Output::with_dst(OutputId::random(), output_dst, label, mixin);
        assert(output@.realizes(wanted));
        self.restreams[n].outputs.push(output);
        proof {
            lemma_outputs_set(*old(self), *self, n as int);
            lemma_restreams_realize_themselves(old(self).restreams@);
            lemma_restream_realizes_itself(old(self).restreams@[n as int]);
            lemma_pairwise_push(was.outputs, was.outputs, output@, wanted, output_realizes());
            assert(outputs_view(self.restreams@[n as int].outputs@) == was.outputs.push(output@));
            assert(self.restreams@[n as int].outputs@.drop_last() =~= old(
                self,
            ).restreams@[n as int].outputs@);
            lemma_pairwise_update(
                old(self)@.restreams,
                old(self)@.restreams,
                n as int,
                was.with_outputs(was.outputs.push(output@)),
                was.with_outputs(was.outputs.push(wanted)),
                restream_realizes(),
            );
        }
        Some(true)
    }
}

} // verus!
