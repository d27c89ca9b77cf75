//! Version 1 of a shareable (exportable and importable) specification of
//! application's [`State`].
//!
//! [`State`]: crate::state::State

use vstd::prelude::*;

use crate::addresses::{InputSrcUrl, MixinSrcUrl, OutputDstUrl, UrlView};
use crate::laws::uniqueness::{law_duplicate_in_input, law_valid_input};
use crate::lists::{first_clash, lemma_first_clash_in_sum, lemma_next_clash, lemma_no_clash};
use crate::measures::{Delay, Volume};
use crate::names::{InputKey, Label, RestreamKey};

verus! {

/// Content of a [`Spec`].
pub struct SpecView {
    pub restreams: Seq<RestreamView>,
}

/// Content of a [`Restream`].
pub struct RestreamView {
    pub key: Seq<char>,
    pub label: Option<Seq<char>>,
    pub input: InputView,
    pub outputs: Seq<OutputView>,
}

/// Content of an [`Input`].
pub struct InputView {
    pub key: Seq<char>,
    pub srcs: Seq<InputSrcView>,
    pub enabled: bool,
}

/// Content of an [`InputSrc`].
pub enum InputSrcView {
    RemoteUrl(UrlView),
    LocalInput(InputView),
}

/// Content of an [`Output`].
pub struct OutputView {
    pub dst: UrlView,
    pub label: Option<Seq<char>>,
    pub volume: u16,
    pub mixins: Seq<MixinView>,
    pub enabled: bool,
}

/// Content of a [`Mixin`].
pub struct MixinView {
    pub src: UrlView,
    pub volume: u16,
    pub delay: nat,
}

/// Shareable (exportable and importable) specification of a [`State`].
///
/// [`State`]: crate::state::State
#[derive(Clone, Debug, PartialEq, Eq)]
pub struct Spec {
    /// [`Restream`]s to be performed.
    pub restreams: Vec<Restream>,
}

/// Shareable (exportable and importable) specification of a
/// [`state::Restream`].
///
/// [`state::Restream`]: crate::state::Restream
#[derive(Clone, Debug, PartialEq, Eq)]
pub struct Restream {
    /// Unique key of this [`Restream`] identifying it, and used to form its
    /// endpoints URLs.
    pub key: RestreamKey,
    /// Optional label of this [`Restream`].
    pub label: Option<Label>,
    /// [`Input`] that a live stream is received from.
    pub input: Input,
    /// [`Output`]s that a live stream is re-streamed to.
    pub outputs: Vec<Output>,
}

/// Shareable (exportable and importable) specification of a [`state::Input`].
///
/// [`state::Input`]: crate::state::Input
#[derive(Debug, PartialEq, Eq)]
pub struct Input {
    /// Key of this [`Input`] to expose its endpoint with for accepting and
    /// serving a live stream.
    pub key: InputKey,
    /// Sources to pull a live stream from.
    ///
    /// If empty then a live stream is received (pushed) rather than is pulled.
    pub srcs: Vec<InputSrc>,
    /// Indicator whether this [`Input`] is enabled, so is allowed to receive a
    /// live stream from its upstream sources.
    pub enabled: bool,
}

/// Shareable (exportable and importable) specification of a
/// [`state::InputSrc`].
///
/// [`state::InputSrc`]: crate::state::InputSrc
#[derive(Debug, PartialEq, Eq)]
pub enum InputSrc {
    /// Remote endpoint represented by its URL.
    RemoteUrl(InputSrcUrl),
    /// Yet another local [`Input`].
    LocalInput(Input),
}

/// Shareable (exportable and importable) specification of a [`state::Output`].
///
/// [`state::Output`]: crate::state::Output
#[derive(Clone, Debug, PartialEq, Eq)]
pub struct Output {
    /// Downstream URL to re-stream a live stream onto.
    pub dst: OutputDstUrl,
    /// Optional label of this [`Output`].
    pub label: Option<Label>,
    /// Volume rate of this [`Output`]'s audio tracks when mixed with
    /// [`Output::mixins`].
    pub volume: Volume,
    /// [`Mixin`]s to mix this [`Output`] with before re-streaming it to its
    /// downstream destination.
    ///
    /// If empty, then no mixing is performed.
    pub mixins: Vec<Mixin>,
    /// Indicator whether this [`Output`] is enabled, so is allowed to perform
    /// a live stream re-streaming to its downstream destination.
    pub enabled: bool,
}

/// Shareable (exportable and importable) specification of a [`state::Mixin`].
///
/// [`state::Mixin`]: crate::state::Mixin
#[derive(Clone, Debug, PartialEq, Eq)]
pub struct Mixin {
    /// URL of the source to be mixed with an [`Output`].
    pub src: MixinSrcUrl,
    /// Volume rate of this [`Mixin`]'s audio tracks to mix them with.
    pub volume: Volume,
    /// Delay that this [`Mixin`] should wait before being mixed with an
    /// [`Output`].
    pub delay: Delay,
}

/// Text of an optional label.
pub open spec fn label_view(label: Option<Label>) -> Option<Seq<char>> {
    match label {
        Some(label) => Some(label@),
        None => None,
    }
}

/// Contents of [`Restream`]s.
pub open spec fn restreams_view(restreams: Seq<Restream>) -> Seq<RestreamView> {
    Seq::new(restreams.len(), |i: int| restreams[i]@)
}

/// Contents of [`Output`]s.
pub open spec fn outputs_view(outputs: Seq<Output>) -> Seq<OutputView> {
    Seq::new(outputs.len(), |i: int| outputs[i]@)
}

/// Contents of [`Mixin`]s.
pub open spec fn mixins_view(mixins: Seq<Mixin>) -> Seq<MixinView> {
    Seq::new(mixins.len(), |i: int| mixins[i]@)
}

/// Contents of [`InputSrc`]s.
pub open spec fn srcs_view(srcs: Seq<InputSrc>) -> Seq<InputSrcView> {
    Seq::new(srcs.len(), |i: int| srcs[i]@)
}

impl Spec {
    /// Content of this [`Spec`].
    pub open spec fn view(&self) -> SpecView {
        SpecView { restreams: restreams_view(self.restreams@) }
    }
}

impl Restream {
    /// Content of this [`Restream`].
    pub open spec fn view(&self) -> RestreamView {
        RestreamView {
            key: self.key@,
            label: label_view(self.label),
            input: self.input@,
            outputs: outputs_view(self.outputs@),
        }
    }
}

impl Input {
    /// Content of this [`Input`].
    pub open spec fn view(&self) -> InputView
        decreases self,
    {
        InputView {
            key: self.key@,
            srcs: Seq::new(
                self.srcs@.len(),
                |i: int|
                    if 0 <= i < self.srcs@.len() {
                        self.srcs@[i]@
                    } else {
                        arbitrary()
                    },
            ),
            enabled: self.enabled,
        }
    }

    /// Contents of sources of an [`Input`] are the ones of its content.
    pub proof fn lemma_view(&self)
        ensures
            self@ == (InputView {
                key: self.key@,
                srcs: srcs_view(self.srcs@),
                enabled: self.enabled,
            }),
    {
        assert(self@.srcs =~= srcs_view(self.srcs@));
    }
}

impl InputSrc {
    /// Content of this [`InputSrc`].
    pub open spec fn view(&self) -> InputSrcView
        decreases self,
    {
        match self {
            InputSrc::RemoteUrl(url) => InputSrcView::RemoteUrl(url@),
            InputSrc::LocalInput(input) => InputSrcView::LocalInput(input@),
        }
    }
}

impl Input {
    /// Copies this [`Input`] with all its sources.
    fn copied(&self) -> (copy: Self)
        ensures
            copy@ == self@,
        decreases self,
    {
        let mut srcs: Vec<InputSrc> = Vec::with_capacity(self.srcs.len());
        let mut n: usize = 0;
        while n < self.srcs.len()
            invariant
                n <= self.srcs@.len(),
                srcs@.len() == n,
                forall|i: int| 0 <= i < n ==> #[trigger] srcs@[i]@ == self.srcs@[i]@,
            decreases self.srcs@.len() - n,
        {
            proof {
                assert(decreases_to!(self => self.srcs@[n as int]));
            }
            srcs.push(self.srcs[n].copied());
            n = n + 1;
        }
        let copy = Self { key: self.key.clone(), srcs, enabled: self.enabled };
        proof {
            self.lemma_view();
            copy.lemma_view();
            assert(srcs_view(copy.srcs@) =~= srcs_view(self.srcs@));
        }
        copy
    }
}

impl Clone for Input {
    fn clone(&self) -> (copy: Self)
        ensures
            copy@ == self@,
    {
        self.copied()
    }
}

impl InputSrc {
    /// Copies this [`InputSrc`].
    fn copied(&self) -> (copy: Self)
        ensures
            copy@ == self@,
        decreases self,
    {
        match self {
            InputSrc::RemoteUrl(url) => InputSrc::RemoteUrl(url.clone()),
            InputSrc::LocalInput(input) => InputSrc::LocalInput(input.copied()),
        }
    }
}

impl Clone for InputSrc {
    fn clone(&self) -> (copy: Self)
        ensures
            copy@ == self@,
    {
        self.copied()
    }
}

impl Output {
    /// Content of this [`Output`].
    pub open spec fn view(&self) -> OutputView {
        OutputView {
            dst: self.dst@,
            label: label_view(self.label),
            volume: self.volume@,
            mixins: mixins_view(self.mixins@),
            enabled: self.enabled,
        }
    }
}

impl Mixin {
    /// Content of this [`Mixin`].
    pub open spec fn view(&self) -> MixinView {
        MixinView { src: self.src@, volume: self.volume@, delay: self.delay@ }
    }
}

/// Something that should be unique in a specification, but occurs there twice.
#[derive(Clone, Debug, PartialEq, Eq)]
pub enum Duplicate {
    /// Key of two [`Restream`]s of a [`Spec`].
    RestreamKey(RestreamKey),
    /// Destination of two [`Output`]s of a [`Restream`].
    OutputDst(OutputDstUrl),
    /// Source of two [`Mixin`]s of an [`Output`].
    MixinSrc(MixinSrcUrl),
    /// URL of two sources under an [`Input`].
    SrcUrl(InputSrcUrl),
    /// Key of an [`Input`] and of another one under it, or of two of them
    /// under it.
    InputKey(InputKey),
}

impl Duplicate {
    /// What is said of this [`Duplicate`].
    pub open spec fn said(self) -> Seq<char> {
        match self {
            Duplicate::RestreamKey(key) => "Duplicate Restream.key in Spec.restreams: "@ + key@,
            Duplicate::OutputDst(dst) => "Duplicate Output.dst in Restream.outputs: "@ + dst@.text,
            Duplicate::MixinSrc(src) => "Duplicate Mixin.src in Output.mixins: "@ + src@.text,
            Duplicate::SrcUrl(url) => "Duplicate RemoteInputSrc.url in Input.srcs: "@ + url@.text,
            Duplicate::InputKey(key) => "Duplicate Input.key in Input.srcs: "@ + key@,
        }
    }

    /// Describes this [`Duplicate`] in words.
    #[must_use]
    pub fn message(&self) -> (text: String)
        ensures
            text@ == self.said(),
            self matches Duplicate::RestreamKey(key) ==> text@
                == "Duplicate Restream.key in Spec.restreams: "@ + key@,
            self matches Duplicate::OutputDst(dst) ==> text@
                == "Duplicate Output.dst in Restream.outputs: "@ + dst@.text,
            self matches Duplicate::MixinSrc(src) ==> text@
                == "Duplicate Mixin.src in Output.mixins: "@ + src@.text,
            self matches Duplicate::SrcUrl(url) ==> text@
                == "Duplicate RemoteInputSrc.url in Input.srcs: "@ + url@.text,
            self matches Duplicate::InputKey(key) ==> text@
                == "Duplicate Input.key in Input.srcs: "@ + key@,
    {
        match self {
            Duplicate::RestreamKey(key) => {
                "Duplicate Restream.key in Spec.restreams: ".to_owned().concat(key.as_str())
            },
            Duplicate::OutputDst(dst) => {
                "Duplicate Output.dst in Restream.outputs: ".to_owned().concat(dst.url().as_str())
            },
            Duplicate::MixinSrc(src) => {
                "Duplicate Mixin.src in Output.mixins: ".to_owned().concat(src.url().as_str())
            },
            Duplicate::SrcUrl(url) => {
                "Duplicate RemoteInputSrc.url in Input.srcs: ".to_owned().concat(
                    url.url().as_str(),
                )
            },
            Duplicate::InputKey(key) => {
                "Duplicate Input.key in Input.srcs: ".to_owned().concat(key.as_str())
            },
        }
    }
}

/// Keys of [`Restream`]s.
pub open spec fn restream_keys(restreams: Seq<RestreamView>) -> Seq<Seq<char>> {
    Seq::new(restreams.len(), |i: int| restreams[i].key)
}

/// Destinations of [`Output`]s.
pub open spec fn output_dsts(outputs: Seq<OutputView>) -> Seq<Seq<char>> {
    Seq::new(outputs.len(), |i: int| outputs[i].dst.text)
}

/// Sources of [`Mixin`]s.
pub open spec fn mixin_srcs(mixins: Seq<MixinView>) -> Seq<Seq<char>> {
    Seq::new(mixins.len(), |i: int| mixins[i].src.text)
}

impl Spec {
    /// Passes the given [`Spec::restreams`] on ensuring their invariants
    /// preserved.
    ///
    /// # Errors
    ///
    /// If keys of two [`Restream`]s are the same. The error holds the first
    /// key which is met the second time.
    pub fn deserialize_restreams(restreams: Vec<Restream>) -> (passed: Result<
        Vec<Restream>,
        Duplicate,
    >)
        ensures
            match first_clash(Set::empty(), restream_keys(restreams_view(restreams@))) {
                None => passed == Ok::<Vec<Restream>, Duplicate>(restreams),
                Some(key) => passed matches Err(Duplicate::RestreamKey(k)) && k@ == key,
            },
            passed is Ok <==> forall|i: int, j: int|
                0 <= i < j < restreams@.len() ==> (#[trigger] restreams@[i]).key@ != (
                #[trigger] restreams@[j]).key@,
            passed matches Ok(items) ==> items == restreams,
            passed matches Err(duplicate) ==> {
                &&& duplicate is RestreamKey
                &&& exists|i: int, j: int|
                    0 <= i < j < restreams@.len() && (#[trigger] restreams@[i]).key@ == (
                    #[trigger] restreams@[j]).key@ && duplicate->RestreamKey_0@
                        == restreams@[j].key@ && forall|k: int, l: int|
                        0 <= k < l < j ==> (#[trigger] restreams@[k]).key@ != (
                        #[trigger] restreams@[l]).key@
            },
    {
        let ghost keys = restream_keys(restreams_view(restreams@));
        let mut n: usize = 0;
        while n < restreams.len()
            invariant
                n <= restreams@.len(),
                keys == restream_keys(restreams_view(restreams@)),
                first_clash(Set::empty(), keys.take(n as int)) is None,
            decreases restreams@.len() - n,
        {
            let mut m: usize = 0;
            while m < n
                invariant
                    m <= n < restreams@.len(),
                    keys == restream_keys(restreams_view(restreams@)),
                    first_clash(Set::empty(), keys.take(n as int)) is None,
                    forall|i: int| 0 <= i < m ==> #[trigger] keys[i] != keys[n as int],
                decreases n - m,
            {
                if restreams[m].key == restreams[n].key {
                    proof {
                        assert(keys.take(n as int)[m as int] == keys[n as int]);
                        lemma_next_clash(keys, n as int);
                    }
                    proof {
                        lemma_no_clash(Set::empty(), keys.take(n as int));
                        assert forall|k: int, l: int| 0 <= k < l < n implies (
                        #[trigger] restreams@[k]).key@ != (#[trigger] restreams@[l]).key@ by {
                            assert(keys.take(n as int)[k] != keys.take(n as int)[l]);
                        }
                    }
                    return Err(Duplicate::RestreamKey(restreams[n].key.clone()));
                }
                m = m + 1;
            }
            proof {
                lemma_next_clash(keys, n as int);
            }
            n = n + 1;
        }
        assert(keys.take(n as int) == keys);
        proof {
            lemma_no_clash(Set::empty(), keys);
            assert forall|i: int, j: int| 0 <= i < j < restreams@.len() implies (
            #[trigger] restreams@[i]).key@ != (#[trigger] restreams@[j]).key@ by {
                assert(keys[i] != keys[j]);
            }
        }
        Ok(restreams)
    }
}

impl Restream {
    /// Passes the given [`Restream::outputs`] on ensuring their invariants
    /// preserved.
    ///
    /// # Errors
    ///
    /// If destinations of two [`Output`]s are the same. The error holds the
    /// first destination which is met the second time.
    pub fn deserialize_outputs(outputs: Vec<Output>) -> (passed: Result<Vec<Output>, Duplicate>)
        ensures
            match first_clash(Set::empty(), output_dsts(outputs_view(outputs@))) {
                None => passed == Ok::<Vec<Output>, Duplicate>(outputs),
                Some(dst) => passed matches Err(Duplicate::OutputDst(d)) && d@.text == dst,
            },
            passed is Ok <==> forall|i: int, j: int|
                0 <= i < j < outputs@.len() ==> (#[trigger] outputs@[i]).dst@.text != (
                #[trigger] outputs@[j]).dst@.text,
            passed matches Ok(items) ==> items == outputs,
            passed matches Err(duplicate) ==> {
                &&& duplicate is OutputDst
                &&& exists|i: int, j: int|
                    0 <= i < j < outputs@.len() && (#[trigger] outputs@[i]).dst@.text == (
                    #[trigger] outputs@[j]).dst@.text && duplicate->OutputDst_0@.text
                        == outputs@[j].dst@.text && forall|k: int, l: int|
                        0 <= k < l < j ==> (#[trigger] outputs@[k]).dst@.text != (
                        #[trigger] outputs@[l]).dst@.text
            },
    {
        let ghost dsts = output_dsts(outputs_view(outputs@));
        let mut n: usize = 0;
        while n < outputs.len()
            invariant
                n <= outputs@.len(),
                dsts == output_dsts(outputs_view(outputs@)),
                first_clash(Set::empty(), dsts.take(n as int)) is None,
            decreases outputs@.len() - n,
        {
            let mut m: usize = 0;
            while m < n
                invariant
                    m <= n < outputs@.len(),
                    dsts == output_dsts(outputs_view(outputs@)),
                    first_clash(Set::empty(), dsts.take(n as int)) is None,
                    forall|i: int| 0 <= i < m ==> #[trigger] dsts[i] != dsts[n as int],
                decreases n - m,
            {
                if outputs[m].dst == outputs[n].dst {
                    proof {
                        assert(dsts.take(n as int)[m as int] == dsts[n as int]);
                        lemma_next_clash(dsts, n as int);
                    }
                    proof {
                        lemma_no_clash(Set::empty(), dsts.take(n as int));
                        assert forall|k: int, l: int| 0 <= k < l < n implies (
                        #[trigger] outputs@[k]).dst@.text != (#[trigger] outputs@[l]).dst@.text by {
                            assert(dsts.take(n as int)[k] != dsts.take(n as int)[l]);
                        }
                    }
                    return Err(Duplicate::OutputDst(outputs[n].dst.clone()));
                }
                m = m + 1;
            }
            proof {
                lemma_next_clash(dsts, n as int);
            }
            n = n + 1;
        }
        assert(dsts.take(n as int) == dsts);
        proof {
            lemma_no_clash(Set::empty(), dsts);
            assert forall|i: int, j: int| 0 <= i < j < outputs@.len() implies (
            #[trigger] outputs@[i]).dst@.text != (#[trigger] outputs@[j]).dst@.text by {
                assert(dsts[i] != dsts[j]);
            }
        }
        Ok(outputs)
    }
}

impl Output {
    /// Passes the given [`Output::mixins`] on ensuring their invariants
    /// preserved.
    ///
    /// # Errors
    ///
    /// If sources of two [`Mixin`]s are the same. The error holds the first
    /// source which is met the second time.
    pub fn deserialize_mixins(mixins: Vec<Mixin>) -> (passed: Result<Vec<Mixin>, Duplicate>)
        ensures
            match first_clash(Set::empty(), mixin_srcs(mixins_view(mixins@))) {
                None => passed == Ok::<Vec<Mixin>, Duplicate>(mixins),
                Some(src) => passed matches Err(Duplicate::MixinSrc(s)) && s@.text == src,
            },
            passed is Ok <==> forall|i: int, j: int|
                0 <= i < j < mixins@.len() ==> (#[trigger] mixins@[i]).src@.text != (
                #[trigger] mixins@[j]).src@.text,
            passed matches Ok(items) ==> items == mixins,
            passed matches Err(duplicate) ==> {
                &&& duplicate is MixinSrc
                &&& exists|i: int, j: int|
                    0 <= i < j < mixins@.len() && (#[trigger] mixins@[i]).src@.text == (
                    #[trigger] mixins@[j]).src@.text && duplicate->MixinSrc_0@.text
                        == mixins@[j].src@.text && forall|k: int, l: int|
                        0 <= k < l < j ==> (#[trigger] mixins@[k]).src@.text != (
                        #[trigger] mixins@[l]).src@.text
            },
    {
        let ghost srcs = mixin_srcs(mixins_view(mixins@));
        let mut n: usize = 0;
        while n < mixins.len()
            invariant
                n <= mixins@.len(),
                srcs == mixin_srcs(mixins_view(mixins@)),
                first_clash(Set::empty(), srcs.take(n as int)) is None,
            decreases mixins@.len() - n,
        {
            let mut m: usize = 0;
            while m < n
                invariant
                    m <= n < mixins@.len(),
                    srcs == mixin_srcs(mixins_view(mixins@)),
                    first_clash(Set::empty(), srcs.take(n as int)) is None,
                    forall|i: int| 0 <= i < m ==> #[trigger] srcs[i] != srcs[n as int],
                decreases n - m,
            {
                if mixins[m].src == mixins[n].src {
                    proof {
                        assert(srcs.take(n as int)[m as int] == srcs[n as int]);
                        lemma_next_clash(srcs, n as int);
                    }
                    proof {
                        lemma_no_clash(Set::empty(), srcs.take(n as int));
                        assert forall|k: int, l: int| 0 <= k < l < n implies (
                        #[trigger] mixins@[k]).src@.text != (#[trigger] mixins@[l]).src@.text by {
                            assert(srcs.take(n as int)[k] != srcs.take(n as int)[l]);
                        }
                    }
                    return Err(Duplicate::MixinSrc(mixins[n].src.clone()));
                }
                m = m + 1;
            }
            proof {
                lemma_next_clash(srcs, n as int);
            }
            n = n + 1;
        }
        assert(srcs.take(n as int) == srcs);
        proof {
            lemma_no_clash(Set::empty(), srcs);
            assert forall|i: int, j: int| 0 <= i < j < mixins@.len() implies (
            #[trigger] mixins@[i]).src@.text != (#[trigger] mixins@[j]).src@.text by {
                assert(srcs[i] != srcs[j]);
            }
        }
        Ok(mixins)
    }
}

/// What should be met only once among an [`Input`] and all that is under it.
pub enum Ident {
    /// URL of a remote source.
    Url(Seq<char>),
    /// Key of an [`Input`].
    Key(Seq<char>),
}

impl InputView {
    /// All that should be unique of an [`Input`]: its key and all that should
    /// be unique of its sources.
    pub open spec fn idents(self) -> Seq<Ident>
        decreases self,
    {
        seq![Ident::Key(self.key)] + srcs_idents(self.srcs)
    }

    /// What should be unique at the place which is reached from this [`Input`]
    /// through sources at the positions of the given `path`, if there is such.
    ///
    /// It's the key of this [`Input`] if the `path` is empty.
    pub open spec fn ident_at(self, path: Seq<int>) -> Option<Ident>
        decreases path.len(),
    {
        if path.len() == 0 {
            Some(Ident::Key(self.key))
        } else if 0 <= path[0] < self.srcs.len() {
            match self.srcs[path[0]] {
                InputSrcView::RemoteUrl(url) => if path.len() == 1 {
                    Some(Ident::Url(url.text))
                } else {
                    None
                },
                InputSrcView::LocalInput(input) => input.ident_at(path.drop_first()),
            }
        } else {
            None
        }
    }
}

impl InputSrcView {
    /// All that should be unique of an [`InputSrc`].
    pub open spec fn idents(self) -> Seq<Ident>
        decreases self,
    {
        match self {
            InputSrcView::RemoteUrl(url) => seq![Ident::Url(url.text)],
            InputSrcView::LocalInput(input) => input.idents(),
        }
    }
}

/// All that should be unique of [`InputSrc`]s, in the order of them.
pub open spec fn srcs_idents(srcs: Seq<InputSrcView>) -> Seq<Ident>
    decreases srcs,
{
    if srcs.len() == 0 {
        seq![]
    } else {
        srcs_idents(srcs.drop_last()) + srcs.last().idents()
    }
}

/// Tells whether all [`Mixin`]s have different sources.
pub open spec fn mixins_differ(mixins: Seq<MixinView>) -> bool {
    forall|i: int, j: int|
        0 <= i < j < mixins.len() ==> (#[trigger] mixins[i]).src.text != (
        #[trigger] mixins[j]).src.text
}

/// Tells whether all [`Output`]s have different destinations.
pub open spec fn outputs_differ(outputs: Seq<OutputView>) -> bool {
    forall|i: int, j: int|
        0 <= i < j < outputs.len() ==> (#[trigger] outputs[i]).dst.text != (
        #[trigger] outputs[j]).dst.text
}

/// Tells whether all [`Restream`]s have different keys.
pub open spec fn restreams_differ(restreams: Seq<RestreamView>) -> bool {
    forall|i: int, j: int|
        0 <= i < j < restreams.len() ==> (#[trigger] restreams[i]).key != (
        #[trigger] restreams[j]).key
}

/// Tells whether all [`InputSrc`]s are different: remote ones have different
/// URLs, and local ones have different keys.
pub open spec fn srcs_differ(srcs: Seq<InputSrcView>) -> bool {
    forall|i: int, j: int|
        0 <= i < j < srcs.len() ==> !(#[trigger] srcs[i]).is_alike(#[trigger] srcs[j])
}

impl InputSrcView {
    /// Tells whether this [`InputSrc`] has the same URL or the same key as the
    /// `other` one.
    pub open spec fn is_alike(self, other: Self) -> bool {
        match (self, other) {
            (InputSrcView::RemoteUrl(a), InputSrcView::RemoteUrl(b)) => a.text == b.text,
            (InputSrcView::LocalInput(a), InputSrcView::LocalInput(b)) => a.key == b.key,
            _ => false,
        }
    }
}

impl OutputView {
    /// Tells whether parts of this [`Output`] differ from one another.
    pub open spec fn parts_differ(self) -> bool {
        mixins_differ(self.mixins)
    }
}

impl InputView {
    /// Tells whether sources of this [`Input`] differ from one another, and so
    /// do the ones of every [`Input`] under it.
    pub open spec fn parts_differ(self) -> bool
        decreases self,
    {
        &&& srcs_differ(self.srcs)
        &&& forall|i: int|
            0 <= i < self.srcs.len() ==> match #[trigger] self.srcs[i] {
                InputSrcView::RemoteUrl(_) => true,
                InputSrcView::LocalInput(input) => input.parts_differ(),
            }
    }
}

impl RestreamView {
    /// Tells whether parts of this [`Restream`], and the ones of them, differ
    /// from one another.
    pub open spec fn parts_differ(self) -> bool {
        &&& self.input.parts_differ()
        &&& outputs_differ(self.outputs)
        &&& forall|i: int|
            0 <= i < self.outputs.len() ==> (#[trigger] self.outputs[i]).parts_differ()
    }
}

impl SpecView {
    /// Tells whether parts of this [`Spec`], and the ones of them, differ from
    /// one another.
    pub open spec fn parts_differ(self) -> bool {
        &&& restreams_differ(self.restreams)
        &&& forall|i: int|
            0 <= i < self.restreams.len() ==> (#[trigger] self.restreams[i]).parts_differ()
    }
}

impl OutputView {
    /// Tells whether [`Mixin`]s of this [`Output`] have different sources.
    pub open spec fn is_valid(self) -> bool {
        first_clash(Set::empty(), mixin_srcs(self.mixins)) is None
    }
}

impl InputView {
    /// Tells whether neither a key nor a URL is met twice in this [`Input`].
    pub open spec fn is_valid(self) -> bool {
        first_clash(Set::empty(), self.idents()) is None
    }
}

/// Tells whether [`Output`]s are valid themselves, and have different
/// destinations.
pub open spec fn are_valid_outputs(outputs: Seq<OutputView>) -> bool {
    &&& first_clash(Set::empty(), output_dsts(outputs)) is None
    &&& forall|i: int| 0 <= i < outputs.len() ==> (#[trigger] outputs[i]).is_valid()
}

impl RestreamView {
    /// Tells whether all of this [`Restream`] passes when it's deserialized.
    pub open spec fn is_valid(self) -> bool {
        &&& self.input.is_valid()
        &&& are_valid_outputs(self.outputs)
    }
}

impl SpecView {
    /// Tells whether all of this [`Spec`] passes when it's deserialized: all
    /// that should be unique is.
    pub open spec fn is_valid(self) -> bool {
        &&& first_clash(Set::empty(), restream_keys(self.restreams)) is None
        &&& forall|i: int|
            0 <= i < self.restreams.len() ==> (#[trigger] self.restreams[i]).is_valid()
    }
}

impl InputView {
    /// All the keys of an [`Input`] and of the ones under it, at any depth.
    pub open spec fn all_keys(self) -> Seq<Seq<char>>
        decreases self,
    {
        seq![self.key] + srcs_keys(self.srcs)
    }

    /// All the URLs under an [`Input`], at any depth.
    pub open spec fn all_urls(self) -> Seq<Seq<char>>
        decreases self,
    {
        srcs_urls(self.srcs)
    }
}

/// All the keys of [`InputSrc`]s and of what is under them, at any depth.
pub open spec fn srcs_keys(srcs: Seq<InputSrcView>) -> Seq<Seq<char>>
    decreases srcs,
{
    if srcs.len() == 0 {
        seq![]
    } else {
        srcs_keys(srcs.drop_last()) + match srcs.last() {
            InputSrcView::RemoteUrl(_) => seq![],
            InputSrcView::LocalInput(input) => input.all_keys(),
        }
    }
}

/// All the URLs of [`InputSrc`]s and of what is under them, at any depth.
pub open spec fn srcs_urls(srcs: Seq<InputSrcView>) -> Seq<Seq<char>>
    decreases srcs,
{
    if srcs.len() == 0 {
        seq![]
    } else {
        srcs_urls(srcs.drop_last()) + match srcs.last() {
            InputSrcView::RemoteUrl(url) => seq![url.text],
            InputSrcView::LocalInput(input) => input.all_urls(),
        }
    }
}

/// What has been met: the given URLs and the given keys.
spec fn met(urls: Seq<&InputSrcUrl>, keys: Seq<&InputKey>) -> Set<Ident> {
    Set::new(
        |ident: Ident|
            match ident {
                Ident::Url(text) => exists|i: int|
                    0 <= i < urls.len() && #[trigger] urls[i]@.text == text,
                Ident::Key(key) => exists|i: int| 0 <= i < keys.len() && #[trigger] keys[i]@ == key,
            },
    )
}

impl Duplicate {
    /// Tells whether this is a [`Duplicate`] of the given key or URL.
    pub open spec fn is_of(self, ident: Ident) -> bool {
        match (self, ident) {
            (Duplicate::SrcUrl(url), Ident::Url(text)) => url@.text == text,
            (Duplicate::InputKey(key), Ident::Key(text)) => key@ == text,
            _ => false,
        }
    }
}

/// Adds the `url` to the ones met, unless it's there already.
fn meet_url<'a>(url: &'a InputSrcUrl, urls: &mut Vec<&'a InputSrcUrl>, Ghost(keys): Ghost<
    Seq<&'a InputKey>,
>) -> (res: Result<(), Duplicate>)
    ensures
        match first_clash(met(old(urls)@, keys), seq![Ident::Url(url@.text)]) {
            None => res is Ok && met(final(urls)@, keys) == met(old(urls)@, keys).insert(
                Ident::Url(url@.text),
            ),
            Some(ident) => res matches Err(d) && d.is_of(ident),
        },
{
    let ghost ident = Ident::Url(url@.text);
    let mut n: usize = 0;
    while n < urls.len()
        invariant
            n <= urls@.len(),
            urls@ == old(urls)@,
            forall|i: int| 0 <= i < n ==> #[trigger] urls@[i]@.text != url@.text,
        decreases urls@.len() - n,
    {
        if *urls[n] == *url {
            assert(met(urls@, keys).contains(Ident::Url(url@.text)));
            return Err(Duplicate::SrcUrl(url.clone()));
        }
        n = n + 1;
    }
    let ghost had = urls@;
    let ghost before = met(had, keys);
    urls.push(url);
    proof {
        lemma_no_clash_alone(before, ident);
        assert forall|x: Ident| met(urls@, keys).contains(x) == before.insert(ident).contains(
            x,
        ) by {
            if let Ident::Url(text) = x {
                if before.contains(x) {
                    let i = choose|i: int| 0 <= i < had.len() && #[trigger] had[i]@.text == text;
                    assert(urls@[i]@.text == text);
                }
                if x == ident {
                    assert(urls@[had.len() as int]@.text == text);
                }
                if met(urls@, keys).contains(x) {
                    let i = choose|i: int|
                        0 <= i < urls@.len() && #[trigger] urls@[i]@.text == text;
                    if i < had.len() {
                        assert(had[i]@.text == text);
                    }
                }
            }
        }
        assert(met(urls@, keys) == before.insert(ident));
    }
    Ok(())
}

/// Adds the `key` to the ones met, unless it's there already.
fn meet_key<'a>(key: &'a InputKey, Ghost(urls): Ghost<Seq<&'a InputSrcUrl>>, keys: &mut Vec<
    &'a InputKey,
>) -> (res: Result<(), Duplicate>)
    ensures
        match first_clash(met(urls, old(keys)@), seq![Ident::Key(key@)]) {
            None => res is Ok && met(urls, final(keys)@) == met(urls, old(keys)@).insert(
                Ident::Key(key@),
            ),
            Some(ident) => res matches Err(d) && d.is_of(ident),
        },
{
    let ghost ident = Ident::Key(key@);
    let mut n: usize = 0;
    while n < keys.len()
        invariant
            n <= keys@.len(),
            keys@ == old(keys)@,
            forall|i: int| 0 <= i < n ==> #[trigger] keys@[i]@ != key@,
        decreases keys@.len() - n,
    {
        if *keys[n] == *key {
            assert(met(urls, keys@).contains(Ident::Key(key@)));
            return Err(Duplicate::InputKey(key.clone()));
        }
        n = n + 1;
    }
    let ghost had = keys@;
    let ghost before = met(urls, had);
    keys.push(key);
    proof {
        lemma_no_clash_alone(before, ident);
        assert forall|x: Ident| met(urls, keys@).contains(x) == before.insert(ident).contains(
            x,
        ) by {
            if let Ident::Key(text) = x {
                if before.contains(x) {
                    let i = choose|i: int| 0 <= i < had.len() && #[trigger] had[i]@ == text;
                    assert(keys@[i]@ == text);
                }
                if x == ident {
                    assert(keys@[had.len() as int]@ == text);
                }
                if met(urls, keys@).contains(x) {
                    let i = choose|i: int| 0 <= i < keys@.len() && #[trigger] keys@[i]@ == text;
                    if i < had.len() {
                        assert(had[i]@ == text);
                    }
                }
            }
        }
        assert(met(urls, keys@) == before.insert(ident));
    }
    Ok(())
}

/// A single item doesn't clash, unless it has been seen.
proof fn lemma_no_clash_alone(seen: Set<Ident>, ident: Ident)
    ensures
        first_clash(seen, seq![ident]) is None <==> !seen.contains(ident),
        seq![ident].to_set() == Set::empty().insert(ident),
{
    assert(seq![ident].drop_first().len() == 0);
    assert(first_clash(seen.insert(ident), seq![ident].drop_first()) is None);
    assert forall|x: Ident| seq![ident].contains(x) == (x == ident) by {
        assert(seq![ident][0] == ident);
    }
    assert(seq![ident].to_set() =~= Set::empty().insert(ident));
}

/// Ensures that neither a URL nor a key of the `src`, and of all that is under
/// it, has been met before, and adds them to the ones met.
fn ensure_src_unique<'a>(
    src: &'a InputSrc,
    urls: &mut Vec<&'a InputSrcUrl>,
    keys: &mut Vec<&'a InputKey>,
) -> (res: Result<(), Duplicate>)
    ensures
        match first_clash(met(old(urls)@, old(keys)@), src@.idents()) {
            None => res is Ok && met(final(urls)@, final(keys)@) == met(
                old(urls)@,
                old(keys)@,
            ).union(src@.idents().to_set()),
            Some(ident) => res matches Err(d) && d.is_of(ident),
        },
    decreases src,
{
    let ghost seen = met(urls@, keys@);
    match src {
        InputSrc::RemoteUrl(url) => {
            proof {
                lemma_no_clash_alone(seen, Ident::Url(url@.text));
            }
            let res = meet_url(url, urls, Ghost(keys@));
            proof {
                if res is Ok {
                    assert(met(urls@, keys@) == seen.union(src@.idents().to_set()));
                }
            }
            res
        },
        InputSrc::LocalInput(input) => {
            let ghost own = seq![Ident::Key(input.key@)];
            let ghost under = srcs_idents(input@.srcs);
            proof {
                input.lemma_view();
                lemma_no_clash_alone(seen, Ident::Key(input.key@));
                lemma_first_clash_in_sum(seen, own, under);
                assert(src@.idents() == own + under);
            }
            if let Err(duplicate) = meet_key(&input.key, Ghost(urls@), keys) {
                return Err(duplicate);
            }
            assert(met(urls@, keys@) == seen.union(own.to_set()));
            let res = ensure_srcs_unique(&input.srcs, urls, keys);
            proof {
                if res is Ok {
                    vstd::seq_lib::seq_to_set_distributes_over_add(own, under);
                    assert(met(urls@, keys@) == seen.union(src@.idents().to_set()));
                }
            }
            res
        },
    }
}

/// Ensures that neither a URL nor a key of the `srcs`, and of all that is under
/// them, has been met before, and adds them to the ones met.
fn ensure_srcs_unique<'a>(
    srcs: &'a Vec<InputSrc>,
    urls: &mut Vec<&'a InputSrcUrl>,
    keys: &mut Vec<&'a InputKey>,
) -> (res: Result<(), Duplicate>)
    ensures
        match first_clash(met(old(urls)@, old(keys)@), srcs_idents(srcs_view(srcs@))) {
            None => res is Ok && met(final(urls)@, final(keys)@) == met(
                old(urls)@,
                old(keys)@,
            ).union(srcs_idents(srcs_view(srcs@)).to_set()),
            Some(ident) => res matches Err(d) && d.is_of(ident),
        },
    decreases srcs,
{
    let ghost seen = met(urls@, keys@);
    let ghost views = srcs_view(srcs@);
    let mut n: usize = 0;
    proof {
        assert(views.take(0).len() == 0);
        assert(srcs_idents(views.take(0)).len() == 0);
        assert(seen.union(srcs_idents(views.take(0)).to_set()) == seen);
    }
    while n < srcs.len()
        invariant
            n <= srcs@.len(),
            seen == met(old(urls)@, old(keys)@),
            views == srcs_view(srcs@),
            first_clash(seen, srcs_idents(views.take(n as int))) is None,
            met(urls@, keys@) == seen.union(srcs_idents(views.take(n as int)).to_set()),
        decreases srcs@.len() - n,
    {
        let ghost passed = srcs_idents(views.take(n as int));
        let ghost next = views[n as int].idents();
        proof {
            lemma_srcs_clash(seen, views, n as int);
            assert(decreases_to!(srcs => srcs@[n as int]));
        }
        if let Err(duplicate) = ensure_src_unique(&srcs[n], urls, keys) {
            return Err(duplicate);
        }
        proof {
            assert(views.take(n + 1).drop_last() == views.take(n as int));
            vstd::seq_lib::seq_to_set_distributes_over_add(passed, next);
            assert(met(urls@, keys@) == seen.union(
                srcs_idents(views.take(n + 1)).to_set(),
            ));
        }
        n = n + 1;
    }
    assert(views.take(n as int) == views);
    Ok(())
}

/// A clash at one of the sources is a clash among all of them.
proof fn lemma_srcs_clash(seen: Set<Ident>, srcs: Seq<InputSrcView>, n: int)
    requires
        0 <= n < srcs.len(),
        first_clash(seen, srcs_idents(srcs.take(n))) is None,
    ensures
        first_clash(seen, srcs_idents(srcs.take(n + 1))) == first_clash(
            seen.union(srcs_idents(srcs.take(n)).to_set()),
            srcs[n].idents(),
        ),
        first_clash(seen, srcs_idents(srcs.take(n + 1))) is Some ==> first_clash(
            seen,
            srcs_idents(srcs),
        ) == first_clash(seen, srcs_idents(srcs.take(n + 1))),
    decreases srcs.len(),
{
    assert(srcs.take(n + 1).drop_last() == srcs.take(n));
    lemma_first_clash_in_sum(seen, srcs_idents(srcs.take(n)), srcs[n].idents());
    if n + 1 < srcs.len() {
        let shorter = srcs.drop_last();
        assert(shorter.take(n) == srcs.take(n));
        assert(shorter.take(n + 1) == srcs.take(n + 1));
        lemma_srcs_clash(seen, shorter, n);
        lemma_first_clash_in_sum(seen, srcs_idents(shorter), srcs.last().idents());
    } else {
        assert(srcs.take(n + 1) == srcs);
    }
}

impl Input {
    /// Creates a new [`Input`] out of the given parts ensuring its invariants
    /// preserved.
    ///
    /// # Errors
    ///
    /// If either a key or a URL is met twice among the `key` and all that is
    /// under the `srcs`. The error holds the first of them which is met the
    /// second time, going over an [`Input`] before its sources.
    pub fn deserialize(key: InputKey, srcs: Vec<InputSrc>, enabled: bool) -> (made: Result<
        Self,
        Duplicate,
    >)
        ensures
            match first_clash(
                Set::empty(),
                (InputView { key: key@, srcs: srcs_view(srcs@), enabled }).idents(),
            ) {
                None => made == Ok::<Input, Duplicate>(Input { key, srcs, enabled }),
                Some(ident) => made matches Err(d) && d.is_of(ident),
            },
            ({
                let given = InputView { key: key@, srcs: srcs_view(srcs@), enabled };
                &&& made is Ok <==> forall|p: Seq<int>, q: Seq<int>|
                    #![trigger given.ident_at(p), given.ident_at(q)]
                    p != q && given.ident_at(p) is Some && given.ident_at(q) is Some
                        ==> given.ident_at(p) != given.ident_at(q)
                &&& made matches Err(duplicate) ==> exists|p: Seq<int>, q: Seq<int>|
                    p != q && (#[trigger] given.ident_at(p)) is Some && given.ident_at(p)
                        == #[trigger] given.ident_at(q) && match given.ident_at(p)->0 {
                        Ident::Url(text) => duplicate is SrcUrl && duplicate->SrcUrl_0@.text
                            == text,
                        Ident::Key(text) => duplicate is InputKey && duplicate->InputKey_0@
                            == text,
                    }
            }),
            made matches Ok(input) ==> input.key == key && input.srcs == srcs && input.enabled
                == enabled,
    {
        let made = Self { key, srcs, enabled };
        let mut urls: Vec<&InputSrcUrl> = Vec::with_capacity(made.srcs.len());
        let mut keys: Vec<&InputKey> = Vec::new();
        keys.push(&made.key);
        let ghost own = seq![Ident::Key(made.key@)];
        let ghost under = srcs_idents(srcs_view(made.srcs@));
        proof {
            assert(met(urls@, keys@) =~= Set::empty().union(own.to_set())) by {
                lemma_no_clash_alone(Set::empty(), Ident::Key(made.key@));
                assert forall|x: Ident| met(urls@, keys@).contains(x) == (x == Ident::Key(
                    made.key@,
                )) by {
                    assert(keys@[0]@ == made.key@);
                }
            }
            lemma_no_clash_alone(Set::empty(), Ident::Key(made.key@));
            lemma_first_clash_in_sum(Set::empty(), own, under);
            let given = InputView { key: key@, srcs: srcs_view(srcs@), enabled };
            law_valid_input(given);
            law_duplicate_in_input(given);
        }
        match ensure_srcs_unique(&made.srcs, &mut urls, &mut keys) {
            Ok(()) => Ok(made),
            Err(duplicate) => Err(duplicate),
        }
    }
}

} // verus!
