//! What should be unique of what is deserialized.

use vstd::prelude::*;

use crate::lists::{first_clash, law_first_clash, lemma_no_clash};
use crate::spec::v1::{
    mixin_srcs, output_dsts, restream_keys, srcs_idents, Duplicate, Ident, InputSrcView, InputView,
    MixinView, OutputView, RestreamView, SpecView,
};

verus! {

/// What should be unique at the `path` of a source.
spec fn src_ident_at(src: InputSrcView, path: Seq<int>) -> Option<Ident> {
    match src {
        InputSrcView::RemoteUrl(url) => if path.len() == 0 {
            Some(Ident::Url(url.text))
        } else {
            None
        },
        InputSrcView::LocalInput(input) => input.ident_at(path),
    }
}

/// What should be unique at the `path` of sources.
spec fn srcs_ident_at(srcs: Seq<InputSrcView>, path: Seq<int>) -> Option<Ident> {
    if path.len() > 0 && 0 <= path[0] < srcs.len() {
        src_ident_at(srcs[path[0]], path.drop_first())
    } else {
        None
    }
}

/// Paths of all that should be unique of an input.
proof fn lemma_input_paths(input: InputView) -> (paths: Seq<Seq<int>>)
    ensures
        paths.len() == input.idents().len(),
        paths.no_duplicates(),
        forall|i: int|
            0 <= i < paths.len() ==> input.ident_at(#[trigger] paths[i]) == Some(
                input.idents()[i],
            ),
        forall|path: Seq<int>| (#[trigger] input.ident_at(path)) is Some ==> paths.contains(path),
    decreases input, 0int,
{
    let under = lemma_srcs_paths(input.srcs);
    let own: Seq<int> = seq![];
    let paths = seq![own] + under;
    let idents = input.idents();
    assert(idents =~= seq![Ident::Key(input.key)] + srcs_idents(input.srcs));
    assert forall|i: int| 0 < i < paths.len() implies paths[i] == under[i - 1] && paths[i].len()
        > 0 by {
        assert(srcs_ident_at(input.srcs, under[i - 1]) is Some);
    }
    assert forall|i: int| 0 <= i < paths.len() implies input.ident_at(#[trigger] paths[i]) == Some(
        idents[i],
    ) by {
        if i > 0 {
            assert(input.ident_at(paths[i]) == srcs_ident_at(input.srcs, under[i - 1]));
        }
    }
    assert forall|i: int, j: int|
        0 <= i < paths.len() && 0 <= j < paths.len() && i != j implies paths[i] != paths[j] by {
        if i > 0 && j > 0 {
            assert(under[i - 1] != under[j - 1]);
        }
    }
    assert forall|path: Seq<int>| (#[trigger] input.ident_at(path)) is Some implies paths.contains(
        path,
    ) by {
        if path.len() == 0 {
            assert(path =~= own);
            assert(paths[0] == path);
        } else {
            assert(srcs_ident_at(input.srcs, path) == input.ident_at(path));
            let i = under.index_of(path);
            assert(paths[i + 1] == path);
        }
    }
    paths
}

/// Paths of all that should be unique of sources.
proof fn lemma_srcs_paths(srcs: Seq<InputSrcView>) -> (paths: Seq<Seq<int>>)
    ensures
        paths.len() == srcs_idents(srcs).len(),
        paths.no_duplicates(),
        forall|i: int|
            0 <= i < paths.len() ==> srcs_ident_at(srcs, #[trigger] paths[i]) == Some(
                srcs_idents(srcs)[i],
            ),
        forall|path: Seq<int>|
            (#[trigger] srcs_ident_at(srcs, path)) is Some ==> paths.contains(path),
    decreases srcs, 0int,
{
    if srcs.len() == 0 {
        seq![]
    } else {
        let n = srcs.len() - 1;
        let (fore, last) = (srcs.drop_last(), srcs.last());
        assert(decreases_to!(srcs => srcs[n]));
        let before = lemma_srcs_paths(fore);
        let rest = match last {
            InputSrcView::RemoteUrl(url) => {
                let own: Seq<int> = seq![];
                let rest = seq![own];
                assert forall|path: Seq<int>| (
                #[trigger] src_ident_at(last, path)) is Some implies rest.contains(path) by {
                    assert(path =~= own);
                    assert(rest[0] == path);
                }
                rest
            },
            InputSrcView::LocalInput(input) => {
                let rest = lemma_input_paths(input);
                assert forall|path: Seq<int>| (
                #[trigger] src_ident_at(last, path)) is Some implies rest.contains(path) by {
                    assert(input.ident_at(path) is Some);
                }
                rest
            },
        };
        assert(rest.len() == last.idents().len());
        assert forall|i: int| 0 <= i < rest.len() implies src_ident_at(last, #[trigger] rest[i])
            == Some(last.idents()[i]) by {}
        let after = Seq::new(rest.len(), |i: int| seq![n] + rest[i]);
        let paths = before + after;
        let idents = srcs_idents(srcs);
        assert(idents =~= srcs_idents(fore) + last.idents());
        assert forall|i: int| 0 <= i < rest.len() implies (#[trigger] after[i])[0] == n
            && after[i].drop_first() == rest[i] && after[i].len() > 0 by {
            assert(after[i].drop_first() =~= rest[i]);
        }
        assert forall|i: int| 0 <= i < before.len() implies (#[trigger] before[i]).len() > 0 && 0
            <= before[i][0] < n by {
            assert(srcs_ident_at(fore, before[i]) is Some);
        }
        assert forall|i: int| 0 <= i < paths.len() implies srcs_ident_at(srcs, #[trigger] paths[i])
            == Some(idents[i]) by {
            if i < before.len() {
                assert(paths[i] == before[i]);
                assert(srcs_ident_at(fore, before[i]) == srcs_ident_at(srcs, before[i]));
            } else {
                let k = i - before.len();
                assert(paths[i] == after[k]);
                assert(src_ident_at(last, rest[k]) == Some(last.idents()[k]));
            }
        }
        assert forall|i: int, j: int|
            0 <= i < paths.len() && 0 <= j < paths.len() && i != j implies paths[i] != paths[j] by {
            if i < before.len() && j < before.len() {
                assert(before[i] != before[j]);
            } else if i >= before.len() && j >= before.len() {
                let (k, l) = (i - before.len(), j - before.len());
                assert(rest[k] != rest[l]);
                assert(after[k].drop_first() == rest[k] && after[l].drop_first() == rest[l]);
            } else if i < before.len() {
                assert(before[i][0] < n);
                assert(after[j - before.len()][0] == n);
            } else {
                assert(before[j][0] < n);
                assert(after[i - before.len()][0] == n);
            }
        }
        assert forall|path: Seq<int>|
            (#[trigger] srcs_ident_at(srcs, path)) is Some implies paths.contains(path) by {
            if path[0] < n {
                assert(srcs_ident_at(fore, path) == srcs_ident_at(srcs, path));
                let i = before.index_of(path);
                assert(paths[i] == path);
            } else {
                let tail = path.drop_first();
                assert(src_ident_at(last, tail) is Some);
                let i = rest.index_of(tail);
                assert(after[i] =~= path);
                assert(paths[before.len() + i] == path);
            }
        }
        paths
    }
}

/// Path leads to the key of an input if it's empty, to the URL of a remote source
/// if its only position is the one of the latter, and otherwise to what its rest
/// leads to from the local source at its first position.
pub proof fn law_path_of_ident(input: InputView, first: int, rest: Seq<int>)
    ensures
        input.ident_at(seq![]) == Some(Ident::Key(input.key)),
        0 <= first < input.srcs.len() ==> match input.srcs[first] {
            InputSrcView::RemoteUrl(url) => {
                &&& rest.len() == 0 ==> input.ident_at(seq![first] + rest) == Some(
                    Ident::Url(url.text),
                )
                &&& rest.len() > 0 ==> input.ident_at(seq![first] + rest) is None
            },
            InputSrcView::LocalInput(a) => input.ident_at(seq![first] + rest) == a.ident_at(rest),
        },
        first < 0 || first >= input.srcs.len() ==> input.ident_at(seq![first] + rest) is None,
{
    assert((seq![first] + rest).drop_first() =~= rest);
}

/// Input is valid exactly when there is nothing equal at any two different places
/// of it: neither keys of two inputs, nor URLs of two remote sources, at whatever
/// depths they are.
pub proof fn law_valid_input(input: InputView)
    ensures
        input.is_valid() <==> forall|p: Seq<int>, q: Seq<int>|
            #![trigger input.ident_at(p), input.ident_at(q)]
            p != q && input.ident_at(p) is Some && input.ident_at(q) is Some ==> input.ident_at(p)
                != input.ident_at(q),
{
    let paths = lemma_input_paths(input);
    let idents = input.idents();
    lemma_no_clash(Set::empty(), idents);
    if input.is_valid() {
        assert forall|p: Seq<int>, q: Seq<int>|
            #![trigger input.ident_at(p), input.ident_at(q)]
            p != q && input.ident_at(p) is Some && input.ident_at(q) is Some implies input.ident_at(
            p,
        ) != input.ident_at(q) by {
            let (i, j) = (paths.index_of(p), paths.index_of(q));
            assert(paths[i] == p && paths[j] == q);
            assert(idents[i] != idents[j]);
        }
    }
    if !input.is_valid() {
        assert(!idents.no_duplicates());
        let (i, j) = choose|i: int, j: int|
            0 <= i < idents.len() && 0 <= j < idents.len() && i != j && idents[i] == idents[j];
        assert(paths[i] != paths[j]);
        assert(input.ident_at(paths[i]) == Some(idents[i]));
        assert(input.ident_at(paths[j]) == Some(idents[j]));
    }
}

/// What doesn't let an input pass stands at two different places of it.
pub proof fn law_duplicate_in_input(input: InputView)
    ensures
        first_clash(Set::empty(), input.idents()) matches Some(ident) ==> exists|
            p: Seq<int>,
            q: Seq<int>,
        |
            p != q && #[trigger] input.ident_at(p) == Some(ident) && #[trigger] input.ident_at(q)
                == Some(ident),
{
    let idents = input.idents();
    let paths = lemma_input_paths(input);
    law_first_clash(idents);
    if let Some(ident) = first_clash(Set::empty(), idents) {
        let (i, j) = choose|i: int, j: int|
            0 <= i < j < idents.len() && #[trigger] idents[i] == ident && #[trigger] idents[j]
                == ident && forall|k: int, l: int|
                0 <= k < l < j ==> #[trigger] idents[k] != #[trigger] idents[l];
        assert(paths[i] != paths[j]);
        assert(input.ident_at(paths[i]) == Some(ident));
        assert(input.ident_at(paths[j]) == Some(ident));
    }
}

/// Inputs are gone over before their sources, and sources in the order of them.
pub proof fn law_order_of_idents(input: InputView, fore: Seq<InputSrcView>, last: InputSrcView)
    ensures
        input.idents() == seq![Ident::Key(input.key)] + srcs_idents(input.srcs),
        srcs_idents(Seq::empty()) == Seq::<Ident>::empty(),
        srcs_idents(fore.push(last)) == srcs_idents(fore) + match last {
            InputSrcView::RemoteUrl(url) => seq![Ident::Url(url.text)],
            InputSrcView::LocalInput(a) => a.idents(),
        },
{
    assert(fore.push(last).drop_last() =~= fore);
    assert(srcs_idents(fore.push(last)) == srcs_idents(fore) + last.idents());
    if let InputSrcView::LocalInput(a) = last {
        assert(last.idents() == a.idents());
    }
}

/// Output is valid exactly when all its mixins have different sources.
pub proof fn law_valid_output(output: OutputView)
    ensures
        output.is_valid() <==> forall|i: int, j: int|
            0 <= i < j < output.mixins.len() ==> (#[trigger] output.mixins[i]).src.text != (
            #[trigger] output.mixins[j]).src.text,
{
    crate::laws::exports::law_mixins_pass_if_differ(output.mixins);
}

/// Restream is valid exactly when its input and all its outputs are, and the
/// latter have different destinations.
pub proof fn law_valid_restream(restream: RestreamView)
    ensures
        restream.is_valid() <==> {
            &&& restream.input.is_valid()
            &&& forall|i: int|
                0 <= i < restream.outputs.len() ==> (#[trigger] restream.outputs[i]).is_valid()
            &&& forall|i: int, j: int|
                0 <= i < j < restream.outputs.len() ==> (#[trigger] restream.outputs[i]).dst.text
                    != (#[trigger] restream.outputs[j]).dst.text
        },
{
    crate::laws::exports::law_outputs_pass_if_differ(restream.outputs);
}

/// Specification is valid exactly when all its restreams are, and have different
/// keys.
pub proof fn law_valid_spec(spec: SpecView)
    ensures
        spec.is_valid() <==> {
            &&& forall|i: int|
                0 <= i < spec.restreams.len() ==> (#[trigger] spec.restreams[i]).is_valid()
            &&& forall|i: int, j: int|
                0 <= i < j < spec.restreams.len() ==> (#[trigger] spec.restreams[i]).key != (
                #[trigger] spec.restreams[j]).key
        },
{
    crate::laws::exports::law_restreams_pass_if_differ(spec.restreams);
}

/// Items go by their sources, destinations and keys.
pub proof fn law_unique_parts(
    mixins: Seq<MixinView>,
    outputs: Seq<OutputView>,
    restreams: Seq<RestreamView>,
)
    ensures
        mixin_srcs(mixins).len() == mixins.len(),
        forall|i: int|
            0 <= i < mixins.len() ==> #[trigger] mixin_srcs(mixins)[i] == mixins[i].src.text,
        output_dsts(outputs).len() == outputs.len(),
        forall|i: int|
            0 <= i < outputs.len() ==> #[trigger] output_dsts(outputs)[i] == outputs[i].dst.text,
        restream_keys(restreams).len() == restreams.len(),
        forall|i: int|
            0 <= i < restreams.len() ==> #[trigger] restream_keys(restreams)[i]
                == restreams[i].key,
{
}

/// Duplicate of a URL is only of an equal URL, and the one of a key is only of an
/// equal key.
pub proof fn law_duplicate_is_of(duplicate: Duplicate, ident: Ident)
    ensures
        duplicate.is_of(ident) <==> {
            ||| ident is Url && duplicate is SrcUrl && duplicate->SrcUrl_0@.text == ident->Url_0
            ||| ident is Key && duplicate is InputKey && duplicate->InputKey_0@ == ident->Key_0
        },
{
}

} // verus!
