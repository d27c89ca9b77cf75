//! What exporting a state gives back of specifications applied to it.

use vstd::prelude::*;

use crate::lists::{
    are_sound, first_clash, items_differ, lemma_kept_by_own, lemma_no_clash, lemma_replaced, merged,
    news_differ, replaced, stems_from,
};
use crate::spec::v1;
use crate::state::StateView;
use crate::state::input::{
    lemma_replaced_srcs, src_identified, src_rules, srcs_differ, srcs_exported, InputSrcView,
    InputView,
};
use crate::state::mixin::{
    mixin_realizes, mixin_rules, mixins_exported, mixins_fresh, mixins_realize, MixinView,
};
use crate::state::output::{
    output_realizes, output_rules, outputs_exported, outputs_fresh, outputs_realize, OutputView,
};
use crate::state::restream::{restream_realizes, restream_rules, RestreamView};

verus! {

/// Rules of mixins are sound.
pub(crate) proof fn lemma_mixin_rules()
    ensures
        are_sound(mixin_rules()),
{
    reveal(are_sound);
}

/// Rules of outputs are sound.
pub(crate) proof fn lemma_output_rules(replace: bool)
    ensures
        are_sound(output_rules(replace)),
{
    reveal(are_sound);
}

/// Rules of sources of inputs are sound.
pub(crate) proof fn lemma_src_rules()
    ensures
        are_sound(src_rules()),
{
    reveal(are_sound);
}

/// Rules of restreams are sound.
pub(crate) proof fn lemma_restream_rules(replace: bool)
    ensures
        are_sound(restream_rules(replace)),
{
    reveal(are_sound);
}

/// Mixins being the expected ones are exported as the latter.
proof fn lemma_mixins_exported_alike(mixins: Seq<MixinView>, expected: Seq<MixinView>)
    requires
        mixins_realize(mixins, expected),
    ensures
        mixins_exported(mixins) == mixins_exported(expected),
{
    assert forall|i: int| 0 <= i < mixins.len() implies mixins[i].exported()
        == expected[i].exported() by {
        assert(mixin_realizes()(mixins[i], expected[i]));
    }
    assert(mixins_exported(mixins) =~= mixins_exported(expected));
}

/// Outputs being the expected ones are exported as the latter.
proof fn lemma_outputs_exported_alike(outputs: Seq<OutputView>, expected: Seq<OutputView>)
    requires
        outputs_realize(outputs, expected),
    ensures
        outputs_exported(outputs) == outputs_exported(expected),
{
    assert forall|i: int| 0 <= i < outputs.len() implies outputs[i].exported()
        == expected[i].exported() by {
        assert(output_realizes()(outputs[i], expected[i]));
        lemma_mixins_exported_alike(outputs[i].mixins, expected[i].mixins);
    }
    assert(outputs_exported(outputs) =~= outputs_exported(expected));
}

/// Input being the expected one is exported as the latter.
pub(crate) proof fn lemma_input_exported_alike(input: InputView, expected: InputView)
    requires
        input.realizes(expected),
    ensures
        input.exported() == expected.exported(),
    decreases input,
{
    assert forall|i: int| 0 <= i < input.srcs.len() implies input.srcs[i].exported()
        == expected.srcs[i].exported() by {
        assert(input.srcs[i].realizes(expected.srcs[i]));
        if let InputSrcView::Local(a) = input.srcs[i] {
            assert(decreases_to!(input => input.srcs[i]));
            lemma_input_exported_alike(a, expected.srcs[i]->Local_0);
        }
    }
    assert(input.exported().srcs =~= expected.exported().srcs);
}

/// State being the expected one is exported as the latter.
pub(crate) proof fn lemma_state_exported_alike(state: StateView, expected: StateView)
    requires
        state.realizes(expected),
    ensures
        state.exported() == expected.exported(),
{
    assert forall|i: int| 0 <= i < state.restreams.len() implies state.restreams[i].exported()
        == expected.restreams[i].exported() by {
        let (a, b) = (state.restreams[i], expected.restreams[i]);
        assert(restream_realizes()(a, b));
        lemma_input_exported_alike(a.input, b.input);
        lemma_outputs_exported_alike(a.outputs, b.outputs);
    }
    assert(state.exported().restreams =~= expected.exported().restreams);
}

/// Sources of an exported input are its sources exported.
pub(crate) proof fn lemma_exported_srcs(input: InputView)
    ensures
        input.exported().srcs == srcs_exported(input.srcs),
{
    assert(input.exported().srcs =~= srcs_exported(input.srcs));
}

/// Newly made of a specification is exported as that specification.
pub(crate) proof fn lemma_fresh_input_exported(new: v1::InputView)
    ensures
        InputView::fresh(new).exported() == new,
    decreases new,
{
    let made = InputView::fresh(new);
    assert forall|i: int| 0 <= i < new.srcs.len() implies made.srcs[i].exported()
        == new.srcs[i] by {
        if let v1::InputSrcView::LocalInput(input) = new.srcs[i] {
            assert(decreases_to!(new => new.srcs[i]));
            lemma_fresh_input_exported(input);
        }
    }
    assert(made.exported().srcs =~= new.srcs);
}

/// Once applied, a specification is what is exported.
pub(crate) proof fn lemma_applied_input_exported(old: InputView, new: v1::InputView)
    ensures
        old.applied(new).exported() == new,
    decreases new,
{
    let made = old.applied(new);
    lemma_replaced_srcs(old.srcs, new.srcs);
    lemma_replaced(old.srcs, new.srcs, src_rules());
    assert forall|i: int| 0 <= i < new.srcs.len() implies made.srcs[i].exported()
        == new.srcs[i] by {
        assert(decreases_to!(new => new.srcs[i]));
        assert(stems_from(made.srcs[i], new.srcs[i], src_rules()));
        if made.srcs[i] == InputSrcView::fresh(new.srcs[i]) {
            if let v1::InputSrcView::LocalInput(input) = new.srcs[i] {
                lemma_fresh_input_exported(input);
            }
        } else {
            let src = choose|src: InputSrcView|
                made.srcs[i] == #[trigger] (src_rules().apply)(src, new.srcs[i]);
            assert(made.srcs[i] == src.applied(new.srcs[i]));
            if let v1::InputSrcView::LocalInput(input) = new.srcs[i] {
                if let InputSrcView::Local(a) = src {
                    lemma_applied_input_exported(a, input);
                } else {
                    lemma_fresh_input_exported(input);
                }
            }
        }
    }
    assert(made.exported().srcs =~= new.srcs);
}

/// Mixins which stem from specifications are exported as the latter.
proof fn lemma_stemming_mixins_exported(mixins: Seq<MixinView>, news: Seq<v1::MixinView>)
    requires
        mixins.len() == news.len(),
        forall|i: int|
            0 <= i < news.len() ==> stems_from(#[trigger] mixins[i], news[i], mixin_rules()),
    ensures
        mixins_exported(mixins) == news,
{
    assert forall|i: int| 0 <= i < news.len() implies mixins[i].exported() == news[i] by {
        assert(stems_from(mixins[i], news[i], mixin_rules()));
        if mixins[i] != MixinView::fresh(news[i]) {
            let old = choose|old: MixinView|
                mixins[i] == #[trigger] (mixin_rules().apply)(old, news[i]);
            assert(mixins[i] == old.applied(news[i]));
        }
    }
    assert(mixins_exported(mixins) =~= news);
}

/// Newly made of a specification is exported as that specification.
pub(crate) proof fn lemma_fresh_output_exported(new: v1::OutputView)
    ensures
        OutputView::fresh(new).exported() == new,
{
    let made = mixins_fresh(new.mixins);
    assert forall|i: int| 0 <= i < made.len() implies stems_from(
        #[trigger] made[i],
        new.mixins[i],
        mixin_rules(),
    ) by {
        assert(made[i] == (mixin_rules().make)(new.mixins[i]));
    }
    lemma_stemming_mixins_exported(made, new.mixins);
}

/// Once applied, a specification is what is exported.
proof fn lemma_applied_output_exported(old: OutputView, new: v1::OutputView)
    ensures
        old.applied(new, true).exported() == new,
{
    lemma_replaced(old.mixins, new.mixins, mixin_rules());
    lemma_stemming_mixins_exported(old.applied(new, true).mixins, new.mixins);
}

/// Outputs which stem from specifications are exported as the latter.
proof fn lemma_stemming_outputs_exported(outputs: Seq<OutputView>, news: Seq<v1::OutputView>)
    requires
        outputs.len() == news.len(),
        forall|i: int|
            0 <= i < news.len() ==> stems_from(#[trigger] outputs[i], news[i], output_rules(true)),
    ensures
        outputs_exported(outputs) == news,
{
    assert forall|i: int| 0 <= i < news.len() implies outputs[i].exported() == news[i] by {
        assert(stems_from(outputs[i], news[i], output_rules(true)));
        if outputs[i] == OutputView::fresh(news[i]) {
            lemma_fresh_output_exported(news[i]);
        } else {
            let old = choose|old: OutputView|
                outputs[i] == #[trigger] (output_rules(true).apply)(old, news[i]);
            assert(outputs[i] == old.applied(news[i], true));
            lemma_applied_output_exported(old, news[i]);
        }
    }
    assert(outputs_exported(outputs) =~= news);
}

/// Newly made of a specification is exported as that specification.
pub(crate) proof fn lemma_fresh_restream_exported(new: v1::RestreamView)
    ensures
        RestreamView::fresh(new).exported() == new,
{
    lemma_fresh_input_exported(new.input);
    let made = outputs_fresh(new.outputs);
    assert forall|i: int| 0 <= i < made.len() implies stems_from(
        #[trigger] made[i],
        new.outputs[i],
        output_rules(true),
    ) by {
        assert(made[i] == (output_rules(true).make)(new.outputs[i]));
    }
    lemma_stemming_outputs_exported(made, new.outputs);
}

/// Once applied, a specification is what is exported.
proof fn lemma_applied_restream_exported(old: RestreamView, new: v1::RestreamView)
    ensures
        old.applied(new, true).exported() == new,
{
    lemma_applied_input_exported(old.input, new.input);
    lemma_replaced(old.outputs, new.outputs, output_rules(true));
    lemma_stemming_outputs_exported(old.applied(new, true).outputs, new.outputs);
}

/// Whatever specification replaces whatever state, exporting the state
/// afterwards gives that very specification back.
pub proof fn law_replaced_state_exports_spec(
    before: StateView,
    spec: v1::SpecView,
    after: StateView,
)
    requires
        after.realizes(before.applied(spec, true)),
    ensures
        after.exported() == spec,
{
    let expected = before.applied(spec, true);
    lemma_state_exported_alike(after, expected);
    lemma_replaced(before.restreams, spec.restreams, restream_rules(true));
    assert forall|i: int| 0 <= i < spec.restreams.len() implies expected.restreams[i].exported()
        == spec.restreams[i] by {
        let (made, new) = (expected.restreams[i], spec.restreams[i]);
        assert(stems_from(made, new, restream_rules(true)));
        if made == RestreamView::fresh(new) {
            lemma_fresh_restream_exported(new);
        } else {
            let old = choose|old: RestreamView|
                made == #[trigger] (restream_rules(true).apply)(old, new);
            assert(made == old.applied(new, true));
            lemma_applied_restream_exported(old, new);
        }
    }
    assert(expected.exported().restreams =~= spec.restreams);
}

/// Whatever specification replaces whatever restream, exporting the restream
/// afterwards gives that very specification back. So it does for a new one.
pub proof fn law_replaced_restream_exports_spec(
    before: RestreamView,
    new: v1::RestreamView,
    after: RestreamView,
)
    requires
        after.realizes(before.applied(new, true)) || after.realizes(RestreamView::fresh(new)),
    ensures
        after.exported() == new,
{
    let expected = if after.realizes(before.applied(new, true)) {
        lemma_applied_restream_exported(before, new);
        before.applied(new, true)
    } else {
        lemma_fresh_restream_exported(new);
        RestreamView::fresh(new)
    };
    lemma_input_exported_alike(after.input, expected.input);
    lemma_outputs_exported_alike(after.outputs, expected.outputs);
}

/// Whatever specification replaces whatever output, exporting the output
/// afterwards gives that very specification back. So it does for a new one.
pub proof fn law_replaced_output_exports_spec(
    before: OutputView,
    new: v1::OutputView,
    after: OutputView,
)
    requires
        after.realizes(before.applied(new, true)) || after.realizes(OutputView::fresh(new)),
    ensures
        after.exported() == new,
{
    let expected = if after.realizes(before.applied(new, true)) {
        lemma_applied_output_exported(before, new);
        before.applied(new, true)
    } else {
        lemma_fresh_output_exported(new);
        OutputView::fresh(new)
    };
    lemma_mixins_exported_alike(after.mixins, expected.mixins);
}

/// Whatever specification is applied to whatever input, exporting the input
/// afterwards gives that very specification back. So it does for a new one.
pub proof fn law_applied_input_exports_spec(
    before: InputView,
    new: v1::InputView,
    after: InputView,
)
    requires
        after.realizes(before.applied(new)) || after.realizes(InputView::fresh(new)),
    ensures
        after.exported() == new,
{
    if after.realizes(before.applied(new)) {
        lemma_applied_input_exported(before, new);
        lemma_input_exported_alike(after, before.applied(new));
    } else {
        lemma_fresh_input_exported(new);
        lemma_input_exported_alike(after, InputView::fresh(new));
    }
}

/// Whatever specification is applied to whatever source, exporting the source
/// afterwards gives that very specification back. So it does for a new one.
pub proof fn law_applied_src_exports_spec(
    before: InputSrcView,
    new: v1::InputSrcView,
    after: InputSrcView,
)
    requires
        after.realizes(before.applied(new)) || after.realizes(InputSrcView::fresh(new)),
    ensures
        after.exported() == new,
{
    if let v1::InputSrcView::LocalInput(input) = new {
        let old = if let InputSrcView::Local(old) = before {
            old
        } else {
            arbitrary()
        };
        law_applied_input_exports_spec(old, input, after->Local_0);
    }
}

/// Whatever specification is applied to whatever mixin, exporting the mixin
/// afterwards gives that very specification back. So it does for a new one.
pub proof fn law_applied_mixin_exports_spec(
    before: MixinView,
    new: v1::MixinView,
    after: MixinView,
)
    requires
        after == before.applied(new) || after.realizes(MixinView::fresh(new)),
    ensures
        after.exported() == new,
{
}

/// Mixins pass when they are deserialized exactly when all their sources are
/// different.
pub proof fn law_mixins_pass_if_differ(news: Seq<v1::MixinView>)
    ensures
        first_clash(Set::empty(), v1::mixin_srcs(news)) is None <==> v1::mixins_differ(news),
{
    let srcs = v1::mixin_srcs(news);
    lemma_no_clash(Set::empty(), srcs);
    if srcs.no_duplicates() {
        assert forall|i: int, j: int| 0 <= i < j < news.len() implies (
        #[trigger] news[i]).src.text != (#[trigger] news[j]).src.text by {
            assert(srcs[i] != srcs[j]);
        }
    }
}

/// Outputs pass when they are deserialized exactly when all their destinations
/// are different.
pub proof fn law_outputs_pass_if_differ(news: Seq<v1::OutputView>)
    ensures
        first_clash(Set::empty(), v1::output_dsts(news)) is None <==> v1::outputs_differ(news),
{
    let dsts = v1::output_dsts(news);
    lemma_no_clash(Set::empty(), dsts);
    if dsts.no_duplicates() {
        assert forall|i: int, j: int| 0 <= i < j < news.len() implies (
        #[trigger] news[i]).dst.text != (#[trigger] news[j]).dst.text by {
            assert(dsts[i] != dsts[j]);
        }
    }
}

/// Restreams pass when they are deserialized exactly when all their keys are
/// different.
pub proof fn law_restreams_pass_if_differ(news: Seq<v1::RestreamView>)
    ensures
        first_clash(Set::empty(), v1::restream_keys(news)) is None <==> v1::restreams_differ(news),
{
    let keys = v1::restream_keys(news);
    lemma_no_clash(Set::empty(), keys);
    if keys.no_duplicates() {
        assert forall|i: int, j: int| 0 <= i < j < news.len() implies (#[trigger] news[i]).key != (
        #[trigger] news[j]).key by {
            assert(keys[i] != keys[j]);
        }
    }
}

/// Parts of what has no duplicates have none, and have nothing in common.
proof fn lemma_no_duplicates_in_parts<A>(a: Seq<A>, b: Seq<A>)
    requires
        (a + b).no_duplicates(),
    ensures
        a.no_duplicates(),
        b.no_duplicates(),
        forall|i: int, j: int|
            0 <= i < a.len() && 0 <= j < b.len() ==> #[trigger] a[i] != #[trigger] b[j],
{
    let all = a + b;
    assert forall|i: int, j: int| 0 <= i < a.len() && 0 <= j < a.len() && i != j implies a[i]
        != a[j] by {
        assert(all[i] != all[j]);
    }
    assert forall|i: int, j: int| 0 <= i < b.len() && 0 <= j < b.len() && i != j implies b[i]
        != b[j] by {
        assert(all[a.len() + i] != all[a.len() + j]);
    }
    assert forall|i: int, j: int|
        0 <= i < a.len() && 0 <= j < b.len() implies #[trigger] a[i] != #[trigger] b[j] by {
        assert(all[i] != all[a.len() + j]);
    }
}

/// What is unique of a source is so among the ones of all the sources.
proof fn lemma_src_idents(srcs: Seq<v1::InputSrcView>, n: int)
    requires
        0 <= n < srcs.len(),
    ensures
        srcs[n].idents().len() > 0,
        v1::srcs_idents(srcs).contains(srcs[n].idents()[0]),
    decreases srcs.len(),
{
    let (rest, last) = (srcs.drop_last(), srcs.last());
    let (a, b) = (v1::srcs_idents(rest), last.idents());
    reveal_with_fuel(v1::InputSrcView::idents, 2);
    reveal_with_fuel(v1::InputView::idents, 2);
    if n < rest.len() {
        lemma_src_idents(rest, n);
        let i = a.index_of(srcs[n].idents()[0]);
        assert((a + b)[i] == srcs[n].idents()[0]);
    } else {
        assert((a + b)[a.len() as int] == b[0]);
    }
}

/// Sources which have nothing in common differ, and are valid themselves.
proof fn lemma_valid_srcs(srcs: Seq<v1::InputSrcView>)
    requires
        v1::srcs_idents(srcs).no_duplicates(),
    ensures
        v1::srcs_differ(srcs),
        forall|i: int|
            0 <= i < srcs.len() ==> ((#[trigger] srcs[i]) matches v1::InputSrcView::LocalInput(
                input,
            ) ==> input.is_valid()),
    decreases srcs.len(),
{
    if srcs.len() > 0 {
        let (rest, last) = (srcs.drop_last(), srcs.last());
        let (a, b) = (v1::srcs_idents(rest), last.idents());
        lemma_no_duplicates_in_parts(a, b);
        lemma_valid_srcs(rest);
        lemma_src_idents(srcs, srcs.len() - 1);
        assert forall|i: int| 0 <= i < srcs.len() implies ((
        #[trigger] srcs[i]) matches v1::InputSrcView::LocalInput(input) ==> input.is_valid()) by {
            if i < rest.len() {
                assert(rest[i] == srcs[i]);
            } else if let v1::InputSrcView::LocalInput(input) = srcs[i] {
                assert(b == input.idents());
                lemma_no_clash(Set::empty(), b);
            }
        }
        assert forall|i: int, j: int| 0 <= i < j < srcs.len() implies !(
        #[trigger] srcs[i]).is_alike(#[trigger] srcs[j]) by {
            assert(rest[i] == srcs[i]);
            if j < rest.len() {
                assert(rest[j] == srcs[j]);
            } else {
                lemma_src_idents(rest, i);
                let k = a.index_of(rest[i].idents()[0]);
                assert(a[k] != b[0]);
                lemma_first_ident(srcs[i]);
                lemma_first_ident(srcs[j]);
            }
        }
    }
}

/// A source is identified by the first of what is unique of it.
proof fn lemma_first_ident(src: v1::InputSrcView)
    ensures
        src.idents().len() > 0,
        src.idents()[0] == match src {
            v1::InputSrcView::RemoteUrl(url) => v1::Ident::Url(url.text),
            v1::InputSrcView::LocalInput(input) => v1::Ident::Key(input.key),
        },
{
    if let v1::InputSrcView::LocalInput(input) = src {
        assert(src.idents() == input.idents());
        assert(input.idents() == seq![v1::Ident::Key(input.key)] + v1::srcs_idents(input.srcs));
    }
}

/// Sources of a valid input, and of all the ones under it, differ.
proof fn lemma_valid_input(new: v1::InputView)
    requires
        new.is_valid(),
    ensures
        new.parts_differ(),
    decreases new,
{
    lemma_no_clash(Set::empty(), new.idents());
    lemma_no_duplicates_in_parts(
        seq![v1::Ident::Key(new.key)],
        v1::srcs_idents(new.srcs),
    );
    lemma_valid_srcs(new.srcs);
    assert forall|i: int| 0 <= i < new.srcs.len() implies match #[trigger] new.srcs[i] {
        v1::InputSrcView::RemoteUrl(_) => true,
        v1::InputSrcView::LocalInput(input) => input.parts_differ(),
    } by {
        if let v1::InputSrcView::LocalInput(input) = new.srcs[i] {
            assert(decreases_to!(new => new.srcs[i]));
            lemma_valid_input(input);
        }
    }
}

/// All that is specified by a valid specification differs from what is specified
/// next to it.
pub proof fn law_valid_parts_differ(spec: v1::SpecView)
    requires
        spec.is_valid(),
    ensures
        spec.parts_differ(),
{
    law_restreams_pass_if_differ(spec.restreams);
    assert forall|i: int| 0 <= i < spec.restreams.len() implies (
    #[trigger] spec.restreams[i]).parts_differ() by {
        let new = spec.restreams[i];
        assert(new.is_valid());
        lemma_valid_input(new.input);
        law_outputs_pass_if_differ(new.outputs);
        assert forall|j: int| 0 <= j < new.outputs.len() implies (
        #[trigger] new.outputs[j]).parts_differ() by {
            assert(new.outputs[j].is_valid());
            law_mixins_pass_if_differ(new.outputs[j].mixins);
        }
    }
}

/// Keys in the order of what should be unique.
spec fn keys_of(idents: Seq<v1::Ident>) -> Seq<Seq<char>>
    decreases idents.len(),
{
    if idents.len() == 0 {
        seq![]
    } else {
        match idents.last() {
            v1::Ident::Key(key) => keys_of(idents.drop_last()).push(key),
            v1::Ident::Url(_) => keys_of(idents.drop_last()),
        }
    }
}

/// URLs in the order of what should be unique.
spec fn urls_of(idents: Seq<v1::Ident>) -> Seq<Seq<char>>
    decreases idents.len(),
{
    if idents.len() == 0 {
        seq![]
    } else {
        match idents.last() {
            v1::Ident::Key(_) => urls_of(idents.drop_last()),
            v1::Ident::Url(url) => urls_of(idents.drop_last()).push(url),
        }
    }
}

/// Keys and URLs of two lists are the ones of both.
proof fn lemma_idents_in_parts(a: Seq<v1::Ident>, b: Seq<v1::Ident>)
    ensures
        keys_of(a + b) == keys_of(a) + keys_of(b),
        urls_of(a + b) == urls_of(a) + urls_of(b),
    decreases b.len(),
{
    if b.len() == 0 {
        assert(a + b =~= a);
        assert(keys_of(a) + keys_of(b) =~= keys_of(a));
        assert(urls_of(a) + urls_of(b) =~= urls_of(a));
    } else {
        lemma_idents_in_parts(a, b.drop_last());
        assert((a + b).drop_last() =~= a + b.drop_last());
        assert((a + b).last() == b.last());
        assert(keys_of(a + b) =~= keys_of(a) + keys_of(b));
        assert(urls_of(a + b) =~= urls_of(a) + urls_of(b));
    }
}

/// Nothing is met twice exactly when neither keys nor URLs are.
proof fn lemma_idents_differ(idents: Seq<v1::Ident>)
    ensures
        idents.no_duplicates() <==> keys_of(idents).no_duplicates() && urls_of(
            idents,
        ).no_duplicates(),
        forall|key: Seq<char>| #[trigger]
            keys_of(idents).contains(key) <==> idents.contains(v1::Ident::Key(key)),
        forall|url: Seq<char>| #[trigger]
            urls_of(idents).contains(url) <==> idents.contains(v1::Ident::Url(url)),
    decreases idents.len(),
{
    if idents.len() > 0 {
        let (fore, last) = (idents.drop_last(), idents.last());
        lemma_idents_differ(fore);
        assert(idents =~= fore.push(last));
        lemma_pushed(fore, last);
        match last {
            v1::Ident::Key(key) => lemma_pushed(keys_of(fore), key),
            v1::Ident::Url(url) => lemma_pushed(urls_of(fore), url),
        }
    }
}

/// Adding an item to those met keeps them different unless it has been met.
proof fn lemma_pushed<A>(items: Seq<A>, item: A)
    ensures
        items.push(item).no_duplicates() <==> items.no_duplicates() && !items.contains(item),
        forall|x: A| #[trigger] items.push(item).contains(x) <==> x == item || items.contains(x),
{
    let all = items.push(item);
    assert forall|x: A| #[trigger] all.contains(x) <==> x == item || items.contains(x) by {
        if all.contains(x) {
            let i = all.index_of(x);
            if i < items.len() {
                assert(items[i] == x);
            }
        }
        if items.contains(x) {
            let i = items.index_of(x);
            assert(all[i] == x);
        }
        assert(all[items.len() as int] == item);
    }
    if all.no_duplicates() {
        assert forall|i: int, j: int|
            0 <= i < items.len() && 0 <= j < items.len() && i != j implies items[i] != items[j] by {
            assert(all[i] != all[j]);
        }
        if items.contains(item) {
            let i = items.index_of(item);
            assert(all[i] != all[items.len() as int]);
        }
    }
    if items.no_duplicates() && !items.contains(item) {
        assert forall|i: int, j: int|
            0 <= i < all.len() && 0 <= j < all.len() && i != j implies all[i] != all[j] by {
            if i < items.len() && j < items.len() {
                assert(items[i] != items[j]);
            } else if i < items.len() {
                assert(items.contains(items[i]));
            } else {
                assert(items.contains(items[j]));
            }
        }
    }
}

/// Keys and URLs of what should be unique of an input are all the ones there
/// are.
proof fn lemma_input_idents(input: v1::InputView)
    ensures
        keys_of(input.idents()) == input.all_keys(),
        urls_of(input.idents()) == input.all_urls(),
    decreases input,
{
    let own = seq![v1::Ident::Key(input.key)];
    lemma_srcs_idents(input.srcs);
    lemma_idents_in_parts(own, v1::srcs_idents(input.srcs));
    assert(own.drop_last() =~= seq![]);
    assert(keys_of(own.drop_last()) =~= seq![]);
    assert(urls_of(own.drop_last()) =~= seq![]);
    assert(keys_of(own) =~= seq![input.key]);
    assert(urls_of(own) =~= seq![]);
    assert(urls_of(own) + v1::srcs_urls(input.srcs) =~= input.all_urls());
}

/// Keys and URLs of what should be unique of sources are all the ones there are.
proof fn lemma_srcs_idents(srcs: Seq<v1::InputSrcView>)
    ensures
        keys_of(v1::srcs_idents(srcs)) == v1::srcs_keys(srcs),
        urls_of(v1::srcs_idents(srcs)) == v1::srcs_urls(srcs),
    decreases srcs,
{
    if srcs.len() > 0 {
        let (fore, last) = (srcs.drop_last(), srcs.last());
        assert(decreases_to!(srcs => srcs[srcs.len() - 1]));
        lemma_srcs_idents(fore);
        lemma_idents_in_parts(v1::srcs_idents(fore), last.idents());
        match last {
            v1::InputSrcView::RemoteUrl(url) => {
                let own = seq![v1::Ident::Url(url.text)];
                assert(last.idents() == own);
                assert(own.drop_last() =~= seq![]);
                assert(keys_of(own.drop_last()) =~= seq![]);
                assert(urls_of(own.drop_last()) =~= seq![]);
                assert(keys_of(own) =~= seq![]);
                assert(urls_of(own) =~= seq![url.text]);
            },
            v1::InputSrcView::LocalInput(input) => {
                lemma_input_idents(input);
                assert(last.idents() == input.idents());
            },
        }
        assert(keys_of(v1::srcs_idents(srcs)) =~= v1::srcs_keys(srcs));
        assert(urls_of(v1::srcs_idents(srcs)) =~= v1::srcs_urls(srcs));
    }
}

/// Input passes when it's deserialized exactly when no two keys of it and of the
/// ones under it are equal, and no two URLs under it are, at any depth.
pub proof fn law_input_passes_if_differs(new: v1::InputView)
    ensures
        new.is_valid() <==> new.all_keys().no_duplicates() && new.all_urls().no_duplicates(),
{
    lemma_no_clash(Set::empty(), new.idents());
    lemma_idents_differ(new.idents());
    lemma_input_idents(new);
}

/// Different sources identify different ones.
pub(crate) proof fn lemma_differing_news(news: Seq<v1::InputSrcView>)
    requires
        v1::srcs_differ(news),
    ensures
        news_differ(news, src_identified()),
{
    assert forall|i: int, j: int, item: InputSrcView|
        #![trigger src_identified()(item, news[i]), src_identified()(item, news[j])]
        0 <= i < j < news.len() implies !(src_identified()(item, news[i]) && src_identified()(
        item,
        news[j],
    )) by {
        assert(!news[i].is_alike(news[j]));
    }
}

/// Different sources are identified by different ones.
pub(crate) proof fn lemma_differing_srcs(srcs: Seq<InputSrcView>)
    requires
        srcs_differ(srcs),
    ensures
        items_differ(srcs, src_identified()),
{
    assert forall|i: int, j: int, s: v1::InputSrcView|
        #![trigger src_identified()(srcs[i], s), src_identified()(srcs[j], s)]
        0 <= i < j < srcs.len() implies !(src_identified()(srcs[i], s) && src_identified()(
        srcs[j],
        s,
    )) by {
        assert(!srcs[i].is_alike(srcs[j]));
    }
}

/// Mixin is left as it is by its own export.
proof fn lemma_mixins_kept(mixins: Seq<MixinView>)
    requires
        v1::mixins_differ(mixins_exported(mixins)),
    ensures
        replaced(mixins, mixins_exported(mixins), mixin_rules()) == mixins,
        merged(mixins, mixins_exported(mixins), mixin_rules()) == mixins,
{
    let news = mixins_exported(mixins);
    assert forall|i: int, j: int| 0 <= i < j < mixins.len() implies (
    #[trigger] mixins[i]).src.text != (#[trigger] mixins[j]).src.text by {
        assert(news[i].src.text != news[j].src.text);
    }
    lemma_kept_by_own(mixins, news, mixin_rules());
}

/// Outputs are left as they are by their own exports.
proof fn lemma_outputs_kept(outputs: Seq<OutputView>, replace: bool)
    requires
        v1::outputs_differ(outputs_exported(outputs)),
        forall|i: int|
            0 <= i < outputs.len() ==> (#[trigger] outputs_exported(outputs)[i]).parts_differ(),
    ensures
        replaced(outputs, outputs_exported(outputs), output_rules(replace)) == outputs,
        merged(outputs, outputs_exported(outputs), output_rules(replace)) == outputs,
{
    let news = outputs_exported(outputs);
    assert forall|i: int, j: int| 0 <= i < j < outputs.len() implies (
    #[trigger] outputs[i]).dst.text != (#[trigger] outputs[j]).dst.text by {
        assert(news[i].dst.text != news[j].dst.text);
    }
    assert forall|i: int| #![trigger news[i]] 0 <= i < outputs.len() implies outputs[i].applied(
        news[i],
        replace,
    ) == outputs[i] by {
        assert(news[i].parts_differ());
        lemma_mixins_kept(outputs[i].mixins);
    }
    lemma_kept_by_own(outputs, news, output_rules(replace));
}

/// Input is left as it is by its own export.
pub(crate) proof fn lemma_input_kept(input: InputView)
    requires
        input.exported().parts_differ(),
    ensures
        input.applied(input.exported()) == input,
    decreases input,
{
    let new = input.exported();
    lemma_exported_srcs(input);
    lemma_replaced_srcs(input.srcs, new.srcs);
    assert forall|i: int| #![trigger new.srcs[i]] 0 <= i < input.srcs.len() implies
        input.srcs[i].identified_by(new.srcs[i]) && input.srcs[i].applied(new.srcs[i])
        == input.srcs[i] by {
        assert(new.srcs[i] == input.srcs[i].exported());
        if let InputSrcView::Local(a) = input.srcs[i] {
            assert(decreases_to!(input => input.srcs[i]));
            lemma_input_kept(a);
        }
    }
    assert forall|i: int, j: int| 0 <= i < j < input.srcs.len() implies !(
    #[trigger] input.srcs[i]).is_alike(#[trigger] input.srcs[j]) by {
        assert(new.srcs[i] == input.srcs[i].exported());
        assert(new.srcs[j] == input.srcs[j].exported());
        assert(!new.srcs[i].is_alike(new.srcs[j]));
    }
    lemma_differing_srcs(input.srcs);
    lemma_differing_news(new.srcs);
    lemma_kept_by_own(input.srcs, new.srcs, src_rules());
}

/// Restream is left as it is by its own export.
proof fn lemma_restream_kept(restream: RestreamView, replace: bool)
    requires
        restream.exported().parts_differ(),
    ensures
        restream.applied(restream.exported(), replace) == restream,
{
    lemma_input_kept(restream.input);
    lemma_outputs_kept(restream.outputs, replace);
}

/// A state whose restreams, outputs of each of them, mixins of each of those and
/// sources of each input differ from one another is left as it is, with all its
/// IDs, statuses, publishers and players, by its own export being applied to it,
/// no matter whether it's replaced or merged.
pub proof fn law_state_kept_by_own_export(state: StateView, replace: bool)
    requires
        state.exported().parts_differ(),
    ensures
        state.applied(state.exported(), replace) == state,
{
    let (items, news) = (state.restreams, state.exported().restreams);
    assert forall|i: int, j: int| 0 <= i < j < items.len() implies (#[trigger] items[i]).key != (
    #[trigger] items[j]).key by {
        assert(news[i].key != news[j].key);
    }
    assert forall|i: int| #![trigger news[i]] 0 <= i < items.len() implies items[i].applied(
        news[i],
        replace,
    ) == items[i] by {
        assert(news[i].parts_differ());
        lemma_restream_kept(items[i], replace);
    }
    lemma_kept_by_own(items, news, restream_rules(replace));
}

/// Replacing a state the second time by a specification whose parts differ from
/// one another changes nothing.
pub proof fn law_replacing_twice(before: StateView, spec: v1::SpecView, after: StateView)
    requires
        spec.parts_differ(),
        after.realizes(before.applied(spec, true)),
    ensures
        after.applied(spec, true) == after,
{
    law_replaced_state_exports_spec(before, spec, after);
    law_state_kept_by_own_export(after, true);
}

} // verus!
