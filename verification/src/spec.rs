//! Shareable (exportable and importable) specification of application
//! [`State`].
//!
//! [`State`]: crate::state::State

use vstd::prelude::*;

pub use crate::addresses::{InputSrcUrl, MixinSrcUrl, OutputDstUrl};
pub use crate::measures::{Delay, Volume};
pub use crate::names::{InputName, Label};

pub mod v1;

verus! {

/// Shareable (exportable and importable) specification of a [`State`] of any
/// version.
///
/// [`State`]: crate::state::State
#[derive(Clone, Debug, PartialEq, Eq)]
pub enum Spec {
    /// Version 1.
    V1(v1::Spec),
}

impl Spec {
    /// Content of this [`Spec`].
    pub open spec fn view(&self) -> v1::SpecView {
        match self {
            Spec::V1(spec) => spec@,
        }
    }

    /// Converts this [`Spec`] into the [`v1::Spec`].
    #[must_use]
    pub fn into_v1(self) -> (spec: v1::Spec)
        ensures
            self == Spec::V1(spec),
    {
        match self {
            Spec::V1(spec) => spec,
        }
    }
}

impl From<v1::Spec> for Spec {
    fn from(spec: v1::Spec) -> (any: Self) {
        Spec::V1(spec)
    }
}

impl vstd::std_specs::convert::FromSpecImpl<v1::Spec> for Spec {
    open spec fn obeys_from_spec() -> bool {
        true
    }

    open spec fn from_spec(spec: v1::Spec) -> Self {
        Spec::V1(spec)
    }
}

/// Shareable (exportable and importable) specification of a restream which
/// receives a live stream on endpoints of a certain kind.
#[derive(Clone, Debug, PartialEq, Eq)]
pub struct Restream {
    /// Optional label of this [`Restream`].
    pub label: Option<Label>,
    /// Indicator whether this [`Restream`] is enabled, so allows to receive a
    /// live stream from its [`Input`].
    pub enabled: bool,
    /// [`Input`] that a live stream is received from.
    pub input: Input,
    /// [`Output`]s that a live stream is re-streamed to.
    pub outputs: Vec<Output>,
}

/// Shareable (exportable and importable) specification of an
/// [`endpoint::Input`].
///
/// [`endpoint::Input`]: crate::state::endpoint::Input
#[derive(Clone, Debug, PartialEq, Eq)]
pub enum Input {
    /// Receiving a live stream from an external client.
    Push(PushInput),
    /// Receiving a live stream from an external client with an additional
    /// backup endpoint.
    FailoverPush(FailoverPushInput),
    /// Pulling a live stream from a remote server.
    Pull(PullInput),
}

impl From<PushInput> for Input {
    fn from(input: PushInput) -> (any: Self) {
        Input::Push(input)
    }
}

impl vstd::std_specs::convert::FromSpecImpl<PushInput> for Input {
    open spec fn obeys_from_spec() -> bool {
        true
    }

    open spec fn from_spec(input: PushInput) -> Self {
        Input::Push(input)
    }
}

impl From<FailoverPushInput> for Input {
    fn from(input: FailoverPushInput) -> (any: Self) {
        Input::FailoverPush(input)
    }
}

impl vstd::std_specs::convert::FromSpecImpl<FailoverPushInput> for Input {
    open spec fn obeys_from_spec() -> bool {
        true
    }

    open spec fn from_spec(input: FailoverPushInput) -> Self {
        Input::FailoverPush(input)
    }
}

impl From<PullInput> for Input {
    fn from(input: PullInput) -> (any: Self) {
        Input::Pull(input)
    }
}

impl vstd::std_specs::convert::FromSpecImpl<PullInput> for Input {
    open spec fn obeys_from_spec() -> bool {
        true
    }

    open spec fn from_spec(input: PullInput) -> Self {
        Input::Pull(input)
    }
}

/// Shareable (exportable and importable) specification of an
/// [`endpoint::PushInput`].
///
/// [`endpoint::PushInput`]: crate::state::endpoint::PushInput
#[derive(Clone, Debug, PartialEq, Eq)]
pub struct PushInput {
    /// Name of a live stream to expose its endpoints with for receiving and
    /// re-streaming media traffic.
    pub name: InputName,
}

/// Shareable (exportable and importable) specification of an
/// [`endpoint::FailoverPushInput`].
///
/// [`endpoint::FailoverPushInput`]: crate::state::endpoint::FailoverPushInput
#[derive(Clone, Debug, PartialEq, Eq)]
pub struct FailoverPushInput {
    /// Name of a live stream to expose its endpoints with for receiving and
    /// re-streaming media traffic.
    pub name: InputName,
}

/// Shareable (exportable and importable) specification of an
/// [`endpoint::PullInput`].
///
/// [`endpoint::PullInput`]: crate::state::endpoint::PullInput
#[derive(Clone, Debug, PartialEq, Eq)]
pub struct PullInput {
    /// URL of a live stream to be pulled from.
    pub src: InputSrcUrl,
}

/// Shareable (exportable and importable) specification of a downstream
/// destination of a [`Restream`].
#[derive(Clone, Debug, PartialEq, Eq)]
pub struct Output {
    /// URL to push a live stream onto.
    pub dst: OutputDstUrl,
    /// Optional label of this [`Output`].
    pub label: Option<Label>,
    /// Indicator whether this [`Output`] is enabled, so performs a live stream
    /// re-streaming to its destination.
    pub enabled: bool,
    /// Volume rate of this [`Output`]'s audio tracks when mixed with
    /// [`Output::mixins`].
    pub volume: Volume,
    /// [`Mixin`]s to mix this [`Output`] with before re-streaming to its
    /// destination.
    ///
    /// If empty, then no mixing is performed.
    pub mixins: Vec<Mixin>,
}

/// Shareable (exportable and importable) specification of a source to be mixed
/// with an [`Output`].
#[derive(Clone, Debug, PartialEq, Eq)]
pub struct Mixin {
    /// URL of the source to be mixed in.
    pub src: MixinSrcUrl,
    /// Volume rate of this [`Mixin`]'s audio tracks to mix them with.
    pub volume: Volume,
    /// Delay that this [`Mixin`] should wait before being mixed with an
    /// [`Output`].
    pub delay: Delay,
}

} // verus!
