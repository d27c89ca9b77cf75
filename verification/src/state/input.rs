//! Upstream sources of restreams.

use vstd::prelude::*;

use crate::addresses::{InputSrcUrl, UrlView};
use crate::ids::{Id, InputId};
use crate::lists::{
    find, lemma_found, lemma_not_found, lemma_pairwise_push, lemma_pairwise_swap_removed,
    lemma_replaced, lemma_replaced_next, pairwise, replaced, swap_removed, Rules,
};
use crate::measures::Status;
use crate::names::InputKey;
use crate::spec::v1;
use crate::srs::ClientId;

verus! {

/// Content of an [`Input`].
pub struct InputView {
    pub id: Id,
    pub key: Seq<char>,
    pub srcs: Seq<InputSrcView>,
    pub enabled: bool,
    pub status: Status,
    pub srs_publisher_id: Option<ClientId>,
    pub srs_player_ids: Seq<ClientId>,
}

/// Content of an [`InputSrc`].
pub enum InputSrcView {
    Remote(UrlView),
    Local(InputView),
}

impl InputView {
    /// [`Input`] newly made of the given [`v1::Input`].
    pub open spec fn fresh(new: v1::InputView) -> Self
        decreases new,
    {
        InputView {
            id: Id::Fresh,
            key: new.key,
            srcs: Seq::new(
                new.srcs.len(),
                |i: int|
                    if 0 <= i < new.srcs.len() {
                        InputSrcView::fresh(new.srcs[i])
                    } else {
                        arbitrary()
                    },
            ),
            enabled: new.enabled,
            status: Status::Offline,
            srs_publisher_id: None,
            srs_player_ids: seq![],
        }
    }

    /// This [`Input`] with the given [`v1::Input`] applied.
    ///
    /// Once the key changes, or sources appear or disappear altogether, there
    /// is no publisher anymore. Once the key changes, there are no players
    /// anymore.
    pub open spec fn applied(self, new: v1::InputView) -> Self
        decreases new,
    {
        let moved = self.key != new.key;
        let switched = (self.srcs.len() == 0) != (new.srcs.len() == 0);
        InputView {
            key: new.key,
            srcs: replaced_srcs(self.srcs, new.srcs),
            enabled: new.enabled,
            srs_publisher_id: if moved || switched {
                None
            } else {
                self.srs_publisher_id
            },
            srs_player_ids: if moved {
                seq![]
            } else {
                self.srs_player_ids
            },
            ..self
        }
    }

    /// This [`Input`] exported.
    pub open spec fn exported(self) -> v1::InputView
        decreases self,
    {
        v1::InputView {
            key: self.key,
            srcs: Seq::new(
                self.srcs.len(),
                |i: int|
                    if 0 <= i < self.srcs.len() {
                        self.srcs[i].exported()
                    } else {
                        arbitrary()
                    },
            ),
            enabled: self.enabled,
        }
    }

    /// Tells whether this [`Input`] is the `expected` one.
    pub open spec fn realizes(self, expected: Self) -> bool
        decreases self,
    {
        &&& self.id.realizes(expected.id)
        &&& self.srcs.len() == expected.srcs.len()
        &&& forall|i: int|
            0 <= i < self.srcs.len() ==> (#[trigger] self.srcs[i]).realizes(expected.srcs[i])
        &&& self == InputView { id: self.id, srcs: self.srcs, ..expected }
    }

    /// This [`Input`] enabled, along with all the ones under it.
    pub open spec fn turned_on(self) -> Self
        decreases self,
    {
        InputView {
            enabled: true,
            srcs: Seq::new(
                self.srcs.len(),
                |i: int|
                    if 0 <= i < self.srcs.len() {
                        self.srcs[i].turned_on()
                    } else {
                        arbitrary()
                    },
            ),
            ..self
        }
    }

    /// Tells whether this [`Input`] is enabled, along with all the ones under
    /// it.
    pub open spec fn is_on(self) -> bool
        decreases self,
    {
        &&& self.enabled
        &&& forall|i: int| 0 <= i < self.srcs.len() ==> (#[trigger] self.srcs[i]).is_on()
    }

    /// This [`Input`] disabled, along with all the ones under it. None of them
    /// has either a publisher or players anymore.
    pub open spec fn turned_off(self) -> Self
        decreases self,
    {
        InputView {
            enabled: false,
            srcs: Seq::new(
                self.srcs.len(),
                |i: int|
                    if 0 <= i < self.srcs.len() {
                        self.srcs[i].turned_off()
                    } else {
                        arbitrary()
                    },
            ),
            srs_publisher_id: None,
            srs_player_ids: seq![],
            ..self
        }
    }

    /// Tells whether this [`Input`] is disabled, along with all the ones under
    /// it.
    pub open spec fn is_off(self) -> bool
        decreases self,
    {
        &&& !self.enabled
        &&& forall|i: int| 0 <= i < self.srcs.len() ==> (#[trigger] self.srcs[i]).is_off()
    }

    /// [`Input`] which is reached from this one through local sources at the
    /// positions of the given `path`, if there is such.
    ///
    /// It's this [`Input`] itself if the `path` is empty.
    pub open spec fn at(self, path: Seq<int>) -> Option<Self>
        decreases path.len(),
    {
        if path.len() == 0 {
            Some(self)
        } else if 0 <= path[0] < self.srcs.len() {
            match self.srcs[path[0]] {
                InputSrcView::Remote(_) => None,
                InputSrcView::Local(input) => input.at(path.drop_first()),
            }
        } else {
            None
        }
    }
}

impl InputSrcView {
    /// [`InputSrc`] newly made of the given [`v1::InputSrc`].
    pub open spec fn fresh(new: v1::InputSrcView) -> Self
        decreases new,
    {
        match new {
            v1::InputSrcView::RemoteUrl(url) => InputSrcView::Remote(url),
            v1::InputSrcView::LocalInput(input) => InputSrcView::Local(InputView::fresh(input)),
        }
    }

    /// This [`InputSrc`] with the given [`v1::InputSrc`] applied.
    pub open spec fn applied(self, new: v1::InputSrcView) -> Self
        decreases new,
    {
        match (self, new) {
            (InputSrcView::Remote(_), v1::InputSrcView::RemoteUrl(url)) => {
                InputSrcView::Remote(url)
            },
            (InputSrcView::Local(old), v1::InputSrcView::LocalInput(input)) => {
                InputSrcView::Local(old.applied(input))
            },
            _ => InputSrcView::fresh(new),
        }
    }

    /// This [`InputSrc`] exported.
    pub open spec fn exported(self) -> v1::InputSrcView
        decreases self,
    {
        match self {
            InputSrcView::Remote(url) => v1::InputSrcView::RemoteUrl(url),
            InputSrcView::Local(input) => v1::InputSrcView::LocalInput(input.exported()),
        }
    }

    /// Tells whether this [`InputSrc`] is identified by the given
    /// [`v1::InputSrc`]: remote ones by their URLs, local ones by their keys.
    pub open spec fn identified_by(self, spec: v1::InputSrcView) -> bool {
        match (self, spec) {
            (InputSrcView::Remote(a), v1::InputSrcView::RemoteUrl(b)) => a.text == b.text,
            (InputSrcView::Local(a), v1::InputSrcView::LocalInput(b)) => a.key == b.key,
            _ => false,
        }
    }

    /// Tells whether this [`InputSrc`] has the same URL or the same key as the
    /// `other` one.
    pub open spec fn is_alike(self, other: Self) -> bool {
        match (self, other) {
            (InputSrcView::Remote(a), InputSrcView::Remote(b)) => a.text == b.text,
            (InputSrcView::Local(a), InputSrcView::Local(b)) => a.key == b.key,
            _ => false,
        }
    }

    /// Tells whether this [`InputSrc`] is the `expected` one.
    pub open spec fn realizes(self, expected: Self) -> bool
        decreases self,
    {
        match (self, expected) {
            (InputSrcView::Remote(a), InputSrcView::Remote(b)) => a == b,
            (InputSrcView::Local(a), InputSrcView::Local(b)) => a.realizes(b),
            _ => false,
        }
    }

    /// This [`InputSrc`] with all the [`Input`]s of it enabled.
    pub open spec fn turned_on(self) -> Self
        decreases self,
    {
        match self {
            InputSrcView::Remote(_) => self,
            InputSrcView::Local(input) => InputSrcView::Local(input.turned_on()),
        }
    }

    /// Tells whether all the [`Input`]s of this [`InputSrc`] are enabled.
    pub open spec fn is_on(self) -> bool
        decreases self,
    {
        match self {
            InputSrcView::Remote(_) => true,
            InputSrcView::Local(input) => input.is_on(),
        }
    }

    /// This [`InputSrc`] with all the [`Input`]s of it disabled.
    pub open spec fn turned_off(self) -> Self
        decreases self,
    {
        match self {
            InputSrcView::Remote(_) => self,
            InputSrcView::Local(input) => InputSrcView::Local(input.turned_off()),
        }
    }

    /// Tells whether all the [`Input`]s of this [`InputSrc`] are disabled.
    pub open spec fn is_off(self) -> bool
        decreases self,
    {
        match self {
            InputSrcView::Remote(_) => true,
            InputSrcView::Local(input) => input.is_off(),
        }
    }
}

/// What replaces the `olds` by the `news`: as many sources in the same order,
/// each of them being either the first of the `olds` it's identified by, taken
/// from there and brought in line, or a newly made one.
pub open spec fn replaced_srcs(olds: Seq<InputSrcView>, news: Seq<v1::InputSrcView>) -> Seq<
    InputSrcView,
>
    decreases news,
{
    if news.len() == 0 {
        seq![]
    } else {
        match find(olds, news[0], src_identified()) {
            Some(n) => seq![olds[n].applied(news[0])] + replaced_srcs(
                swap_removed(olds, n),
                news.drop_first(),
            ),
            None => seq![InputSrcView::fresh(news[0])] + replaced_srcs(olds, news.drop_first()),
        }
    }
}

/// [`InputSrcView::identified_by`] as a relation.
pub open spec fn src_identified() -> spec_fn(InputSrcView, v1::InputSrcView) -> bool {
    |src: InputSrcView, spec: v1::InputSrcView| src.identified_by(spec)
}

/// [`InputSrc`]s go by what identifies them.
pub open spec fn src_rules() -> Rules<InputSrcView, v1::InputSrcView> {
    Rules {
        same: src_identified(),
        apply: |src: InputSrcView, new: v1::InputSrcView| src.applied(new),
        make: |new: v1::InputSrcView| InputSrcView::fresh(new),
    }
}

/// [`InputSrc`]s are replaced by their rules.
pub proof fn lemma_replaced_srcs(olds: Seq<InputSrcView>, news: Seq<v1::InputSrcView>)
    ensures
        replaced_srcs(olds, news) == replaced(olds, news, src_rules()),
    decreases news.len(),
{
    if news.len() > 0 {
        match find(olds, news[0], src_identified()) {
            Some(n) => lemma_replaced_srcs(swap_removed(olds, n), news.drop_first()),
            None => lemma_replaced_srcs(olds, news.drop_first()),
        }
    }
}

/// Tells whether all [`InputSrc`]s are different: remote ones have different
/// URLs, and local ones have different keys.
pub open spec fn srcs_differ(srcs: Seq<InputSrcView>) -> bool {
    forall|i: int, j: int|
        0 <= i < j < srcs.len() ==> !(#[trigger] srcs[i]).is_alike(#[trigger] srcs[j])
}

/// Contents of [`InputSrc`]s.
pub open spec fn srcs_view(srcs: Seq<InputSrc>) -> Seq<InputSrcView> {
    Seq::new(srcs.len(), |i: int| srcs[i]@)
}

/// Contents of [`InputSrc`]s newly made of the given [`v1::InputSrc`]s.
pub open spec fn srcs_fresh(news: Seq<v1::InputSrcView>) -> Seq<InputSrcView> {
    Seq::new(news.len(), |i: int| InputSrcView::fresh(news[i]))
}

/// [`InputSrc`]s exported.
pub open spec fn srcs_exported(srcs: Seq<InputSrcView>) -> Seq<v1::InputSrcView> {
    Seq::new(srcs.len(), |i: int| srcs[i].exported())
}

/// [`InputSrcView::realizes`] as a relation.
pub open spec fn src_realizes() -> spec_fn(InputSrcView, InputSrcView) -> bool {
    |src: InputSrcView, expected: InputSrcView| src.realizes(expected)
}

/// Tells whether [`InputSrc`]s are the `expected` ones.
pub open spec fn srcs_realize(srcs: Seq<InputSrcView>, expected: Seq<InputSrcView>) -> bool {
    pairwise(srcs, expected, src_realizes())
}

/// Upstream source that a `Restream` receives a live stream from.
#[derive(Debug, PartialEq, Eq)]
pub struct Input {
    /// Unique ID of this `Input`.
    ///
    /// Once assigned, it never changes.
    pub id: InputId,
    /// Key of this `Input` to expose its endpoint with for accepting and
    /// serving a live stream.
    pub key: InputKey,
    /// Sources to pull a live stream from.
    ///
    /// If specified, then this `Input` will pull a live stream from it (pull
    /// kind), otherwise this `Input` will await a live stream to be pushed
    /// (push kind).
    ///
    /// If multiple sources are specified, then the first one will be attempted
    /// falling back to the second one, and so on. Once the first source is
    /// restored, this `Input` switches back to it.
    pub srcs: Vec<InputSrc>,
    /// Indicator whether this `Input` is enabled, so is allowed to receive a
    /// live stream from its upstream sources.
    pub enabled: bool,
    /// `Status` of this `Input` indicating whether it actually serves a live
    /// stream ready to be consumed by `Output`s.
    pub status: Status,
    /// ID of a [SRS] client who publishes a live stream to this [`Input`]
    /// (either an external client or a local process).
    ///
    /// [SRS]: https://github.com/ossrs/srs
    pub srs_publisher_id: Option<ClientId>,
    /// IDs of [SRS] clients who play a live stream from this [`Input`] (either
    /// an external client or a local process).
    ///
    /// [SRS]: https://github.com/ossrs/srs
    pub srs_player_ids: Vec<ClientId>,
}

/// Source to pull a live stream by an `Input` from.
#[derive(Debug, PartialEq, Eq)]
pub enum InputSrc {
    /// Remote endpoint.
    Remote(RemoteInputSrc),
    /// Yet another local `Input`.
    Local(Input),
}

/// Remote upstream source to pull a live stream by an `Input` from.
#[derive(Clone, Debug, PartialEq, Eq)]
pub struct RemoteInputSrc {
    /// URL of this `RemoteInputSrc`.
    pub url: InputSrcUrl,
}

impl From<RemoteInputSrc> for InputSrc {
    fn from(src: RemoteInputSrc) -> (any: Self) {
        InputSrc::Remote(src)
    }
}

impl vstd::std_specs::convert::FromSpecImpl<RemoteInputSrc> for InputSrc {
    open spec fn obeys_from_spec() -> bool {
        true
    }

    open spec fn from_spec(src: RemoteInputSrc) -> Self {
        InputSrc::Remote(src)
    }
}

impl From<Input> for InputSrc {
    fn from(input: Input) -> (any: Self) {
        InputSrc::Local(input)
    }
}

impl vstd::std_specs::convert::FromSpecImpl<Input> for InputSrc {
    open spec fn obeys_from_spec() -> bool {
        true
    }

    open spec fn from_spec(input: Input) -> Self {
        InputSrc::Local(input)
    }
}

impl Input {
    /// Content of this [`Input`].
    pub open spec fn view(&self) -> InputView
        decreases self,
    {
        InputView {
            id: Id::Known(self.id.0),
            key: self.key@,
            srcs: Seq::new(
                self.srcs@.len(),
                |i: int|
                    if 0 <= i < self.srcs@.len() {
                        self.srcs@[i]@
                    } else {
                        arbitrary()
                    },
            ),
            enabled: self.enabled,
            status: self.status,
            srs_publisher_id: self.srs_publisher_id,
            srs_player_ids: self.srs_player_ids@,
        }
    }

    /// Contents of sources of an [`Input`] are the ones of its content.
    pub proof fn lemma_view(&self)
        ensures
            self@ == (InputView {
                id: Id::Known(self.id.0),
                key: self.key@,
                srcs: srcs_view(self.srcs@),
                enabled: self.enabled,
                status: self.status,
                srs_publisher_id: self.srs_publisher_id,
                srs_player_ids: self.srs_player_ids@,
            }),
    {
        assert(self@.srcs =~= srcs_view(self.srcs@));
    }
}

impl InputSrc {
    /// Content of this [`InputSrc`].
    pub open spec fn view(&self) -> InputSrcView
        decreases self,
    {
        match self {
            InputSrc::Remote(src) => InputSrcView::Remote(src.url@),
            InputSrc::Local(input) => InputSrcView::Local(input@),
        }
    }
}

impl Input {
    /// Copies this [`Input`] with all its sources.
    fn copied(&self) -> (copy: Self)
        ensures
            copy@ == self@,
        decreases self,
    {
        let mut srcs: Vec<InputSrc> = Vec::with_capacity(self.srcs.len());
        let mut n: usize = 0;
        while n < self.srcs.len()
            invariant
                n <= self.srcs@.len(),
                srcs@.len() == n,
                forall|i: int| 0 <= i < n ==> #[trigger] srcs@[i]@ == self.srcs@[i]@,
            decreases self.srcs@.len() - n,
        {
            proof {
                assert(decreases_to!(self => self.srcs@[n as int]));
            }
            srcs.push(self.srcs[n].copied());
            n = n + 1;
        }
        let copy = Self {
            id: self.id,
            key: self.key.clone(),
            srcs,
            enabled: self.enabled,
            status: self.status,
            srs_publisher_id: self.srs_publisher_id,
            srs_player_ids: self.srs_player_ids.clone(),
        };
        proof {
            self.lemma_view();
            copy.lemma_view();
            assert(srcs_view(copy.srcs@) =~= srcs_view(self.srcs@));
            assert(copy.srs_player_ids@ =~= self.srs_player_ids@);
        }
        copy
    }
}

impl Clone for Input {
    fn clone(&self) -> (copy: Self)
        ensures
            copy@ == self@,
    {
        self.copied()
    }
}

impl InputSrc {
    /// Copies this [`InputSrc`].
    fn copied(&self) -> (copy: Self)
        ensures
            copy@ == self@,
        decreases self,
    {
        match self {
            InputSrc::Remote(src) => InputSrc::Remote(RemoteInputSrc { url: src.url.clone() }),
            InputSrc::Local(input) => InputSrc::Local(input.copied()),
        }
    }
}

impl Clone for InputSrc {
    fn clone(&self) -> (copy: Self)
        ensures
            copy@ == self@,
    {
        self.copied()
    }
}

impl Input {
    /// Creates a new [`Input`] out of the given [`v1::Input`].
    #[must_use]
    pub fn new(spec: v1::Input) -> (made: Self)
        ensures
            made@.realizes(InputView::fresh(spec@)),
            made.key == spec.key,
            made.enabled == spec.enabled,
            made.status == Status::Offline,
            made.srs_publisher_id is None,
            made.srs_player_ids@.len() == 0,
            made.srcs@.len() == spec.srcs@.len(),
        decreases spec, 1int,
    {
        Self::with_id(InputId::random(), spec)
    }

    /// Creates an [`Input`] with the given ID out of the given [`v1::Input`].
    #[must_use]
    pub fn with_id(id: InputId, spec: v1::Input) -> (made: Self)
        ensures
            made@.id == Id::Known(id.0),
            made@.realizes(InputView { id: Id::Known(id.0), ..InputView::fresh(spec@) }),
            made.id == id,
            made.key == spec.key,
            made.enabled == spec.enabled,
            made.status == Status::Offline,
            made.srs_publisher_id is None,
            made.srs_player_ids@.len() == 0,
            made.srcs@.len() == spec.srcs@.len(),
        decreases spec, 0int,
    {
        let ghost given = spec;
        let made = Self {
            id,
            key: spec.key,
            srcs: make_srcs(spec.srcs),
            enabled: spec.enabled,
            status: Status::Offline,
            srs_publisher_id: None,
            srs_player_ids: vec![],
        };
        proof {
            given.lemma_view();
            made.lemma_view();
            lemma_fresh_srcs(given@);
            let fresh = InputView::fresh(given@);
            lemma_input_realizes(made@, InputView { id: Id::Known(id.0), ..fresh });
        }
        made
    }

    /// Exports this [`Input`] as a [`v1::Input`].
    #[must_use]
    pub fn export(&self) -> (spec: v1::Input)
        ensures
            spec@ == self@.exported(),
            spec.key@ == self.key@,
            spec.enabled == self.enabled,
            spec.srcs@.len() == self.srcs@.len(),
        decreases self,
    {
        let mut srcs: Vec<v1::InputSrc> = Vec::with_capacity(self.srcs.len());
        let mut n: usize = 0;
        while n < self.srcs.len()
            invariant
                n <= self.srcs@.len(),
                srcs@.len() == n,
                forall|i: int| 0 <= i < n ==> #[trigger] srcs@[i]@ == self.srcs@[i]@.exported(),
            decreases self.srcs@.len() - n,
        {
            proof {
                assert(decreases_to!(self => self.srcs@[n as int]));
            }
            srcs.push(self.srcs[n].export());
            n = n + 1;
        }
        let spec = v1::Input { key: self.key.clone(), srcs, enabled: self.enabled };
        proof {
            self.lemma_view();
            spec.lemma_view();
            assert(spec@.srcs =~= self@.exported().srcs);
        }
        spec
    }
}

impl InputSrc {
    /// Creates a new [`InputSrc`] out of the given [`v1::InputSrc`].
    #[must_use]
    pub fn new(spec: v1::InputSrc) -> (made: Self)
        ensures
            made@.realizes(InputSrcView::fresh(spec@)),
        decreases spec, 2int,
    {
        match spec {
            v1::InputSrc::RemoteUrl(url) => Self::Remote(RemoteInputSrc { url }),
            v1::InputSrc::LocalInput(input) => Self::Local(Input::new(input)),
        }
    }

    /// Exports this [`InputSrc`] as a [`v1::InputSrc`].
    #[must_use]
    pub fn export(&self) -> (spec: v1::InputSrc)
        ensures
            spec@ == self@.exported(),
        decreases self,
    {
        match self {
            Self::Remote(src) => v1::InputSrc::RemoteUrl(src.url.clone()),
            Self::Local(input) => v1::InputSrc::LocalInput(input.export()),
        }
    }

    /// Checks whether this [`InputSrc`] is identified by the provided
    /// [`v1::InputSrc`].
    #[must_use]
    pub fn identified_by(&self, spec: &v1::InputSrc) -> (identified: bool)
        ensures
            identified == self@.identified_by(spec@),
    {
        match (self, spec) {
            (Self::Remote(a), v1::InputSrc::RemoteUrl(b)) => a.url == *b,
            (Self::Local(a), v1::InputSrc::LocalInput(b)) => a.key == b.key,
            _ => false,
        }
    }
}

/// Newly made sources are the ones of a newly made [`Input`].
proof fn lemma_fresh_srcs(new: v1::InputView)
    ensures
        InputView::fresh(new).srcs == srcs_fresh(new.srcs),
{
    assert(InputView::fresh(new).srcs =~= srcs_fresh(new.srcs));
}

/// [`Input`] is the expected one if its sources are.
pub proof fn lemma_input_realizes(input: InputView, expected: InputView)
    ensures
        input.realizes(expected) <==> {
            &&& input.id.realizes(expected.id)
            &&& srcs_realize(input.srcs, expected.srcs)
            &&& input == InputView { id: input.id, srcs: input.srcs, ..expected }
        },
{
    if input.realizes(expected) {
        assert forall|i: int| 0 <= i < input.srcs.len() implies src_realizes()(
            input.srcs[i],
            expected.srcs[i],
        ) by {
            assert(input.srcs[i].realizes(expected.srcs[i]));
        }
    }
    if srcs_realize(input.srcs, expected.srcs) {
        assert forall|i: int| 0 <= i < input.srcs.len() implies (#[trigger] input.srcs[i]).realizes(
            expected.srcs[i],
        ) by {
            assert(src_realizes()(input.srcs[i], expected.srcs[i]));
        }
    }
}

/// Creates [`InputSrc`]s out of the `news`.
fn make_srcs(news: Vec<v1::InputSrc>) -> (made: Vec<InputSrc>)
    ensures
        srcs_realize(srcs_view(made@), srcs_fresh(v1::srcs_view(news@))),
    decreases news, 3int,
{
    let ghost given = news@;
    let ghost goal = srcs_fresh(v1::srcs_view(given));
    let mut made: Vec<InputSrc> = Vec::with_capacity(news.len());
    for new in it: news
        invariant
            it.seq() == given,
            given == news@,
            goal == srcs_fresh(v1::srcs_view(given)),
            srcs_realize(srcs_view(made@), goal.take(it.index())),
    {
        let ghost n = it.index();
        let ghost ready = srcs_view(made@);
        proof {
            assert(decreases_to!(news => news@[n]));
        }
        let item = InputSrc::new(new);
        made.push(item);
        proof {
            lemma_pairwise_push(ready, goal.take(n), item@, goal[n], src_realizes());
            assert(srcs_view(made@) == ready.push(item@));
            assert(goal.take(n).push(goal[n]) == goal.take(n + 1));
        }
    }
    assert(goal.take(goal.len() as int) == goal);
    made
}

/// Existing [`Input`] is the one it's expected to be.
pub(crate) proof fn lemma_input_realizes_itself(input: Input)
    ensures
        input@.realizes(input@),
    decreases input,
{
    assert forall|i: int| 0 <= i < input@.srcs.len() implies (#[trigger] input@.srcs[i]).realizes(
        input@.srcs[i],
    ) by {
        assert(decreases_to!(input => input.srcs@[i]));
        lemma_src_realizes_itself(input.srcs@[i]);
    }
}

/// Existing [`InputSrc`] is the one it's expected to be.
proof fn lemma_src_realizes_itself(src: InputSrc)
    ensures
        src@.realizes(src@),
    decreases src,
{
    if let InputSrc::Local(input) = src {
        lemma_input_realizes_itself(input);
    }
}

impl Input {
    /// Applies the given [`v1::Input`] to this [`Input`].
    ///
    /// Replaces all the [`Input::srcs`] with new ones.
    pub fn apply(&mut self, new: v1::Input)
        ensures
            final(self)@.realizes(old(self)@.applied(new@)),
            final(self).key == new.key,
            final(self).enabled == new.enabled,
            final(self).srcs@.len() == new.srcs@.len(),
            final(self).id == old(self).id,
            final(self).status == old(self).status,
            final(self).srs_publisher_id == if old(self).key@ == new.key@ && (old(self).srcs@.len()
                == 0 <==> new.srcs@.len() == 0) {
                old(self).srs_publisher_id
            } else {
                None
            },
            old(self).key@ == new.key@ ==> final(self).srs_player_ids@ == old(
                self,
            ).srs_player_ids@,
            old(self).key@ != new.key@ ==> final(self).srs_player_ids@.len() == 0,
    {
        proof {
            lemma_input_realizes_itself(*self);
        }
        self.apply_expected(new, Ghost(old(self)@));
    }

    /// Does what [`Input::apply`] does to an [`Input`] expected to be such.
    pub(crate) fn apply_expected(&mut self, new: v1::Input, Ghost(expected): Ghost<InputView>)
        requires
            old(self)@.realizes(expected),
        ensures
            final(self)@.realizes(expected.applied(new@)),
            final(self).key == new.key,
            final(self).enabled == new.enabled,
            final(self).srcs@.len() == new.srcs@.len(),
            final(self).id == old(self).id,
            final(self).status == old(self).status,
            final(self).srs_publisher_id == if old(self).key@ == new.key@ && (old(self).srcs@.len()
                == 0 <==> new.srcs@.len() == 0) {
                old(self).srs_publisher_id
            } else {
                None
            },
            old(self).key@ == new.key@ ==> final(self).srs_player_ids@ == old(
                self,
            ).srs_player_ids@,
            old(self).key@ != new.key@ ==> final(self).srs_player_ids@.len() == 0,
        decreases new,
    {
        let ghost given = new;
        let ghost was = self@;
        proof {
            given.lemma_view();
            self.lemma_view();
            lemma_input_realizes(was, expected);
        }
        let moved = !(self.key == new.key);
        let switched = (self.srcs.len() == 0) != (new.srcs.len() == 0);
        if moved || switched {
            // SRS endpoint has changed, or push/pull type has been switched, so
            // the publisher should be kicked.
            self.srs_publisher_id = None;
        }
        if moved {
            // SRS endpoint has changed, so all the players should be kicked.
            self.srs_player_ids = vec![];
        }
        self.key = new.key;
        self.enabled = new.enabled;
        let mut olds: Vec<InputSrc> = Vec::new();
        std::mem::swap(&mut self.srcs, &mut olds);
        self.srcs = replace_srcs(olds, new.srcs, Ghost(expected.srcs));
        proof {
            self.lemma_view();
            lemma_input_realizes(self@, expected.applied(given@));
            lemma_replaced_srcs(expected.srcs, given@.srcs);
            lemma_replaced(expected.srcs, given@.srcs, src_rules());
        }
    }
}

impl InputSrc {
    /// Applies the given [`v1::InputSrc`] to this [`InputSrc`].
    pub fn apply(&mut self, new: v1::InputSrc)
        ensures
            final(self)@.realizes(old(self)@.applied(new@)),
    {
        proof {
            lemma_src_realizes_itself(*self);
        }
        self.apply_expected(new, Ghost(old(self)@));
    }

    /// Does what [`InputSrc::apply`] does to an [`InputSrc`] expected to be
    /// such.
    fn apply_expected(&mut self, new: v1::InputSrc, Ghost(expected): Ghost<InputSrcView>)
        requires
            old(self)@.realizes(expected),
        ensures
            final(self)@.realizes(expected.applied(new@)),
        decreases new,
    {
        match new {
            v1::InputSrc::RemoteUrl(url) => {
                *self = Self::Remote(RemoteInputSrc { url });
            },
            v1::InputSrc::LocalInput(input) => match self {
                Self::Local(old) => old.apply_expected(input, Ghost(expected->Local_0)),
                Self::Remote(_) => {
                    *self = Self::Local(Input::new(input));
                },
            },
        }
    }
}

/// Position of the first of the `srcs` identified by the given one.
fn find_src(srcs: &Vec<InputSrc>, spec: &v1::InputSrc) -> (found: Option<usize>)
    ensures
        match found {
            Some(n) => {
                &&& n < srcs@.len()
                &&& srcs@[n as int]@.identified_by(spec@)
                &&& forall|i: int| 0 <= i < n ==> !(#[trigger] srcs@[i]@).identified_by(spec@)
            },
            None => forall|i: int|
                0 <= i < srcs@.len() ==> !(#[trigger] srcs@[i]@).identified_by(spec@),
        },
{
    let mut n: usize = 0;
    while n < srcs.len()
        invariant
            n <= srcs@.len(),
            forall|i: int| 0 <= i < n ==> !(#[trigger] srcs@[i]@).identified_by(spec@),
        decreases srcs@.len() - n,
    {
        if srcs[n].identified_by(spec) {
            return Some(n);
        }
        n = n + 1;
    }
    None
}

/// Replaces the `olds` by the `news`.
fn replace_srcs(
    olds: Vec<InputSrc>,
    news: Vec<v1::InputSrc>,
    Ghost(expected): Ghost<Seq<InputSrcView>>,
) -> (made: Vec<InputSrc>)
    requires
        srcs_realize(srcs_view(olds@), expected),
    ensures
        srcs_realize(srcs_view(made@), replaced_srcs(expected, v1::srcs_view(news@))),
    decreases news,
{
    let ghost given = news@;
    let ghost specs = v1::srcs_view(given);
    let ghost goal = replaced(expected, specs, src_rules());
    let mut olds = olds;
    let mut made: Vec<InputSrc> = Vec::with_capacity(news.len());
    let ghost mut left = expected;
    let ghost mut done: Seq<InputSrcView> = seq![];
    proof {
        lemma_replaced_srcs(expected, specs);
        assert(specs.skip(0) == specs);
        assert(done + goal == goal);
    }
    for new in it: news
        invariant
            it.seq() == given,
            given == news@,
            specs == v1::srcs_view(given),
            srcs_realize(srcs_view(olds@), left),
            srcs_realize(srcs_view(made@), done),
            done + replaced(left, specs.skip(it.index()), src_rules()) == goal,
    {
        let ghost spec = new@;
        let ghost had = olds@;
        let ghost ready = srcs_view(made@);
        let found = find_src(&olds, &new);
        proof {
            assert(decreases_to!(news => news@[it.index()]));
            lemma_src_found(had, left, spec, found);
            lemma_replaced_next(done, left, specs, it.index(), src_rules());
        }
        let next = match found {
            Some(n) => {
                let mut old = olds.swap_remove(n);
                old.apply_expected(new, Ghost(left[n as int]));
                proof {
                    lemma_pairwise_swap_removed(srcs_view(had), left, n as int, src_realizes());
                    assert(srcs_view(olds@) == swap_removed(srcs_view(had), n as int));
                    done = done.push(left[n as int].applied(spec));
                    left = swap_removed(left, n as int);
                }
                old
            },
            None => {
                proof {
                    done = done.push(InputSrcView::fresh(spec));
                }
                InputSrc::new(new)
            },
        };
        made.push(next);
        proof {
            lemma_pairwise_push(ready, done.drop_last(), next@, done.last(), src_realizes());
            assert(srcs_view(made@) == ready.push(next@));
            assert(done == done.drop_last().push(done.last()));
        }
    }
    proof {
        assert(specs.skip(specs.len() as int).len() == 0);
        assert(done + replaced(left, specs.skip(specs.len() as int), src_rules()) == done);
    }
    made
}

/// [`InputSrc`]s are found alike to the expected ones.
proof fn lemma_src_found(
    srcs: Seq<InputSrc>,
    expected: Seq<InputSrcView>,
    spec: v1::InputSrcView,
    found: Option<usize>,
)
    requires
        srcs_realize(srcs_view(srcs), expected),
        match found {
            Some(n) => {
                &&& n < srcs.len()
                &&& srcs[n as int]@.identified_by(spec)
                &&& forall|i: int| 0 <= i < n ==> !(#[trigger] srcs[i]@).identified_by(spec)
            },
            None => forall|i: int|
                0 <= i < srcs.len() ==> !(#[trigger] srcs[i]@).identified_by(spec),
        },
    ensures
        match found {
            Some(n) => {
                &&& find(expected, spec, src_rules().same) == Some(n as int)
                &&& srcs[n as int]@.realizes(expected[n as int])
            },
            None => find(expected, spec, src_rules().same) is None,
        },
{
    assert forall|i: int| 0 <= i < srcs.len() implies (#[trigger] expected[i]).identified_by(spec)
        == srcs[i]@.identified_by(spec) by {
        assert(src_realizes()(srcs_view(srcs)[i], expected[i]));
    }
    match found {
        Some(n) => {
            assert(src_realizes()(srcs_view(srcs)[n as int], expected[n as int]));
            lemma_found(expected, spec, src_rules().same, n as int);
        },
        None => lemma_not_found(expected, spec, src_rules().same),
    }
}

impl Input {
    /// Enables this [`Input`], along with all the ones it pulls from.
    ///
    /// Returns `false` if all of them have been enabled already.
    #[must_use]
    pub fn enable(&mut self) -> (changed: bool)
        ensures
            final(self)@ == old(self)@.turned_on(),
            changed == !old(self)@.is_on(),
            final(self).enabled == true,
            final(self).id == old(self).id,
            final(self).key == old(self).key,
            final(self).status == old(self).status,
            final(self).srcs@.len() == old(self).srcs@.len(),
            forall|path: Seq<int>|
                (#[trigger] final(self)@.at(path)) is Some <==> old(self)@.at(path) is Some,
            forall|path: Seq<int>|
                (#[trigger] final(self)@.at(path)) matches Some(input) ==> input.enabled,
            changed <==> exists|path: Seq<int>|
                (#[trigger] old(self)@.at(path)) matches Some(input) && !input.enabled,
        decreases *old(self),
    {
        let ghost was = *self;
        let mut changed = !self.enabled;
        self.enabled = true;
        let mut n: usize = 0;
        while n < self.srcs.len()
            invariant
                was == *old(self),
                n <= self.srcs@.len(),
                self.srcs@.len() == was.srcs@.len(),
                *self == (Input { srcs: self.srcs, enabled: true, ..was }),
                forall|i: int|
                    0 <= i < n ==> #[trigger] self.srcs@[i]@ == was.srcs@[i]@.turned_on(),
                forall|i: int|
                    n <= i < was.srcs@.len() ==> #[trigger] self.srcs@[i] == was.srcs@[i],
                changed == !(was.enabled && forall|i: int|
                    0 <= i < n ==> (#[trigger] was@.srcs[i]).is_on()),
            decreases self.srcs@.len() - n,
        {
            let ghost src = was.srcs@[n as int];
            proof {
                assert(self.srcs@[n as int] == src);
                assert(decreases_to!(was => was.srcs@[n as int]));
                assert(was@.srcs[n as int] == src@);
            }
            match &mut self.srcs[n] {
                InputSrc::Local(input) => {
                    proof {
                        assert(*input == src->Local_0);
                        assert(decreases_to!(src => src->Local_0));
                    }
                    if input.enable() {
                        changed = true;
                    }
                },
                InputSrc::Remote(_) => {},
            }
            n = n + 1;
        }
        proof {
            self.lemma_view();
            was.lemma_view();
            assert(self@.srcs =~= was@.turned_on().srcs);
            assert forall|path: Seq<int>| true implies {
                let now = #[trigger] self@.at(path);
                &&& now is Some <==> was@.at(path) is Some
                &&& now matches Some(input) ==> input.enabled
            } by {
                law_enabled_at_any_depth(was@, path);
            }
            law_enabling_changes(was@);
        }
        changed
    }

    /// Disables this [`Input`], along with all the ones it pulls from.
    ///
    /// Returns `false` if all of them have been disabled already.
    #[must_use]
    pub fn disable(&mut self) -> (changed: bool)
        ensures
            final(self)@ == old(self)@.turned_off(),
            changed == !old(self)@.is_off(),
            final(self).enabled == false,
            final(self).id == old(self).id,
            final(self).key == old(self).key,
            final(self).status == old(self).status,
            final(self).srcs@.len() == old(self).srcs@.len(),
            forall|path: Seq<int>|
                (#[trigger] final(self)@.at(path)) is Some <==> old(self)@.at(path) is Some,
            forall|path: Seq<int>|
                (#[trigger] final(self)@.at(path)) matches Some(input) ==> !input.enabled
                    && input.srs_publisher_id is None && input.srs_player_ids.len() == 0,
            changed <==> exists|path: Seq<int>|
                (#[trigger] old(self)@.at(path)) matches Some(input) && input.enabled,
        decreases *old(self),
    {
        let ghost was = *self;
        let mut changed = self.enabled;
        self.enabled = false;
        self.srs_publisher_id = None;
        self.srs_player_ids = vec![];
        let ghost none = self.srs_player_ids;
        let mut n: usize = 0;
        while n < self.srcs.len()
            invariant
                was == *old(self),
                n <= self.srcs@.len(),
                self.srcs@.len() == was.srcs@.len(),
                none@.len() == 0,
                *self == (Input {
                    srcs: self.srcs,
                    enabled: false,
                    srs_publisher_id: None,
                    srs_player_ids: none,
                    ..was
                }),
                forall|i: int|
                    0 <= i < n ==> #[trigger] self.srcs@[i]@ == was.srcs@[i]@.turned_off(),
                forall|i: int|
                    n <= i < was.srcs@.len() ==> #[trigger] self.srcs@[i] == was.srcs@[i],
                changed == !(!was.enabled && forall|i: int|
                    0 <= i < n ==> (#[trigger] was@.srcs[i]).is_off()),
            decreases self.srcs@.len() - n,
        {
            let ghost src = was.srcs@[n as int];
            proof {
                assert(self.srcs@[n as int] == src);
                assert(decreases_to!(was => was.srcs@[n as int]));
                assert(was@.srcs[n as int] == src@);
            }
            match &mut self.srcs[n] {
                InputSrc::Local(input) => {
                    proof {
                        assert(*input == src->Local_0);
                        assert(decreases_to!(src => src->Local_0));
                    }
                    if input.disable() {
                        changed = true;
                    }
                },
                InputSrc::Remote(_) => {},
            }
            n = n + 1;
        }
        proof {
            self.lemma_view();
            was.lemma_view();
            assert(self@.srcs =~= was@.turned_off().srcs);
            assert forall|path: Seq<int>| true implies {
                let now = #[trigger] self@.at(path);
                &&& now is Some <==> was@.at(path) is Some
                &&& now matches Some(input) ==> !input.enabled && input.srs_publisher_id is None
                    && input.srs_player_ids.len() == 0
            } by {
                law_disabled_at_any_depth(was@, path);
            }
            law_disabling_changes(was@);
        }
        changed
    }
}

/// Path leads to the input itself if it's empty, and otherwise to what its rest
/// leads to from the local source at its first position.
pub proof fn law_path_of_input(input: InputView, first: int, rest: Seq<int>)
    ensures
        input.at(seq![]) == Some(input),
        0 <= first < input.srcs.len() && input.srcs[first] is Local ==> input.at(seq![first] + rest)
            == input.srcs[first]->Local_0.at(rest),
        0 <= first < input.srcs.len() && input.srcs[first] is Remote ==> input.at(
            seq![first] + rest,
        ) is None,
        first < 0 || first >= input.srcs.len() ==> input.at(seq![first] + rest) is None,
{
    assert((seq![first] + rest).drop_first() =~= rest);
}

/// Once an input is disabled, so is each one under it, at any depth and whatever
/// its sources are. None of them has either a publisher or players, while the
/// rest of each remains.
pub proof fn law_disabled_at_any_depth(input: InputView, path: Seq<int>)
    ensures
        input.turned_off().at(path) is Some <==> input.at(path) is Some,
        input.turned_off().at(path) matches Some(now) ==> {
            let was = input.at(path)->0;
            &&& !now.enabled
            &&& now.srs_publisher_id is None
            &&& now.srs_player_ids.len() == 0
            &&& now.id == was.id
            &&& now.key == was.key
            &&& now.status == was.status
            &&& now.srcs.len() == was.srcs.len()
            &&& forall|i: int|
                0 <= i < now.srcs.len() ==> match #[trigger] was.srcs[i] {
                    InputSrcView::Remote(url) => now.srcs[i] == InputSrcView::Remote(url),
                    InputSrcView::Local(_) => now.srcs[i] is Local,
                }
        },
    decreases path.len(),
{
    if path.len() > 0 && 0 <= path[0] < input.srcs.len() {
        if let InputSrcView::Local(a) = input.srcs[path[0]] {
            law_disabled_at_any_depth(a, path.drop_first());
        }
    }
}

/// Once an input is enabled, so is each one under it, at any depth and whatever
/// its sources are, while the rest of each remains.
pub proof fn law_enabled_at_any_depth(input: InputView, path: Seq<int>)
    ensures
        input.turned_on().at(path) is Some <==> input.at(path) is Some,
        input.turned_on().at(path) matches Some(now) ==> {
            let was = input.at(path)->0;
            &&& now.enabled
            &&& now.srs_publisher_id == was.srs_publisher_id
            &&& now.srs_player_ids == was.srs_player_ids
            &&& now.id == was.id
            &&& now.key == was.key
            &&& now.status == was.status
            &&& now.srcs.len() == was.srcs.len()
            &&& forall|i: int|
                0 <= i < now.srcs.len() ==> match #[trigger] was.srcs[i] {
                    InputSrcView::Remote(url) => now.srcs[i] == InputSrcView::Remote(url),
                    InputSrcView::Local(_) => now.srcs[i] is Local,
                }
        },
    decreases path.len(),
{
    if path.len() > 0 && 0 <= path[0] < input.srcs.len() {
        if let InputSrcView::Local(a) = input.srcs[path[0]] {
            law_enabled_at_any_depth(a, path.drop_first());
        }
    }
}

/// Disabling an input changes something exactly when either it or some input
/// under it, at any depth, is enabled.
pub proof fn law_disabling_changes(input: InputView)
    ensures
        !input.is_off() <==> exists|path: Seq<int>|
            (#[trigger] input.at(path)) matches Some(a) && a.enabled,
    decreases input,
{
    assert forall|path: Seq<int>| (#[trigger] input.at(path)) matches Some(a)
        && a.enabled implies !input.is_off() by {
        if input.is_off() {
            lemma_off_at(input, path);
        }
    }
    if !input.is_off() {
        if input.enabled {
            assert(input.at(seq![]) == Some(input));
        } else {
            let i = choose|i: int|
                0 <= i < input.srcs.len() && !(#[trigger] input.srcs[i]).is_off();
            assert(decreases_to!(input => input.srcs[i]));
            let next = input.srcs[i]->Local_0;
            law_disabling_changes(next);
            let rest = choose|rest: Seq<int>|
                (#[trigger] next.at(rest)) matches Some(a) && a.enabled;
            law_path_of_input(input, i, rest);
            assert(input.at(seq![i] + rest) == next.at(rest));
        }
    }
}

/// Enabling an input changes something exactly when either it or some input
/// under it, at any depth, is disabled.
pub proof fn law_enabling_changes(input: InputView)
    ensures
        !input.is_on() <==> exists|path: Seq<int>|
            (#[trigger] input.at(path)) matches Some(a) && !a.enabled,
    decreases input,
{
    assert forall|path: Seq<int>| (#[trigger] input.at(path)) matches Some(a)
        && !a.enabled implies !input.is_on() by {
        if input.is_on() {
            lemma_on_at(input, path);
        }
    }
    if !input.is_on() {
        if !input.enabled {
            assert(input.at(seq![]) == Some(input));
        } else {
            let i = choose|i: int|
                0 <= i < input.srcs.len() && !(#[trigger] input.srcs[i]).is_on();
            assert(decreases_to!(input => input.srcs[i]));
            let next = input.srcs[i]->Local_0;
            law_enabling_changes(next);
            let rest = choose|rest: Seq<int>|
                (#[trigger] next.at(rest)) matches Some(a) && !a.enabled;
            law_path_of_input(input, i, rest);
            assert(input.at(seq![i] + rest) == next.at(rest));
        }
    }
}

/// Nothing under a disabled input is enabled.
proof fn lemma_off_at(input: InputView, path: Seq<int>)
    requires
        input.is_off(),
    ensures
        input.at(path) matches Some(a) ==> !a.enabled,
    decreases path.len(),
{
    if path.len() > 0 && 0 <= path[0] < input.srcs.len() {
        assert(input.srcs[path[0]].is_off());
        if let InputSrcView::Local(a) = input.srcs[path[0]] {
            lemma_off_at(a, path.drop_first());
        }
    }
}

/// Nothing under an enabled input is disabled.
proof fn lemma_on_at(input: InputView, path: Seq<int>)
    requires
        input.is_on(),
    ensures
        input.at(path) matches Some(a) ==> a.enabled,
    decreases path.len(),
{
    if path.len() > 0 && 0 <= path[0] < input.srcs.len() {
        assert(input.srcs[path[0]].is_on());
        if let InputSrcView::Local(a) = input.srcs[path[0]] {
            lemma_on_at(a, path.drop_first());
        }
    }
}

} // verus!
