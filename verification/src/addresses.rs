//! URLs that live streams are pulled from, mixed with and re-streamed to.

use vstd::prelude::*;
use vstd::std_specs::cmp::PartialEqSpec;

use crate::names::is_key_char;

verus! {

/// What is read of a URL.
pub struct UrlView {
    /// Serialization of the URL.
    pub text: Seq<char>,
    /// Scheme of the URL, in lower case and without the colon.
    pub scheme: Seq<char>,
    /// Whether the URL has a host.
    pub has_host: bool,
}

/// What the [`url`] crate parses the given text into, if it's an absolute URL.
///
/// [`url`]: ::url
pub uninterp spec fn parsed_url(text: Seq<char>) -> Option<UrlView>;

/// Text before the path in an address of the local media server.
pub open spec fn local_server() -> Seq<char> {
    "rtmp://127.0.0.1:1935/"@
}

/// Path in an address of the local media server: key characters and slashes,
/// a hundred of them at most.
pub open spec fn is_local_path(path: Seq<char>) -> bool {
    &&& path.len() <= 100
    &&& forall|i: int|
        0 <= i < path.len() ==> (is_key_char(#[trigger] path[i]) || path[i] == '/')
}

/// Address of the local media server.
pub open spec fn is_local_address(text: Seq<char>) -> bool {
    exists|path: Seq<char>| text == #[trigger] (local_server() + path) && is_local_path(path)
}

/// URL of the local media server.
pub open spec fn local_url(text: Seq<char>) -> UrlView {
    UrlView { text, scheme: "rtmp"@, has_host: true }
}

/// Absolute URL.
#[derive(Debug, Eq)]
pub struct Url {
    text: String,
    scheme: String,
    has_host: bool,
}

impl Url {
    /// What is read of this URL.
    pub closed spec fn view(&self) -> UrlView {
        UrlView { text: self.text@, scheme: self.scheme@, has_host: self.has_host }
    }

    /// Parses the given text as an absolute URL.
    #[must_use]
    pub fn parse(text: &str) -> (url: Option<Self>)
        ensures
            match url {
                Some(u) => parsed_url(text@) == Some(u@),
                None => parsed_url(text@) is None,
            },
            is_local_address(text@) ==> url is Some && url->0@ == local_url(text@),
    {
        parse_url(text)
    }

    /// Returns the serialization of this [`Url`].
    #[must_use]
    pub fn as_str(&self) -> (text: &str)
        ensures
            text@ == self@.text,
    {
        self.text.as_str()
    }

    /// Returns the scheme of this [`Url`].
    #[must_use]
    pub fn scheme(&self) -> (scheme: &str)
        ensures
            scheme@ == self@.scheme,
    {
        self.scheme.as_str()
    }

    /// Tells whether this [`Url`] has a host.
    #[must_use]
    pub fn has_host(&self) -> (yes: bool)
        ensures
            yes == self@.has_host,
    {
        self.has_host
    }

    /// Tells whether this [`Url`] has the given scheme.
    pub(crate) fn has_scheme(&self, scheme: &str) -> (yes: bool)
        ensures
            yes == (self@.scheme == scheme@),
    {
        self.scheme == scheme.to_owned()
    }
}

impl Clone for Url {
    fn clone(&self) -> (copy: Self)
        ensures
            copy == *self,
    {
        Self { text: self.text.clone(), scheme: self.scheme.clone(), has_host: self.has_host }
    }
}

/// Parses a URL.
///
/// Calls [`Url::parse`] of the [`url`] crate, and takes the serialization, the
/// scheme and the presence of a host out of what it returns, which depends on
/// the text alone. An address of the local media server is parsed without an
/// error, and is serialized as it's given: its scheme has no default port and
/// no special rules, its host and its path have nothing to be encoded, and the
/// latter has no dots to be resolved.
///
/// [`url`]: ::url
/// [`Url::parse`]: ::url::Url::parse
#[verifier::external_body]
fn parse_url(text: &str) -> (url: Option<Url>)
    ensures
        url is Some <==> parsed_url(text@) is Some,
        url is Some ==> parsed_url(text@) == Some(url->0@),
        is_local_address(text@) ==> url is Some && url->0@ == local_url(text@),
{
    match ::url::Url::parse(text) {
        Ok(url) => Some(
            Url {
                text: url.as_str().to_owned(),
                scheme: url.scheme().to_owned(),
                has_host: url.host().is_some(),
            },
        ),
        Err(_) => None,
    }
}

/// URLs are compared by their serializations.
impl PartialEq for Url {
    fn eq(&self, other: &Self) -> (same: bool) {
        self.text == other.text
    }
}

impl vstd::std_specs::cmp::PartialEqSpecImpl for Url {
    open spec fn obeys_eq_spec() -> bool {
        true
    }

    open spec fn eq_spec(&self, other: &Self) -> bool {
        self@.text == other@.text
    }
}

/// Tells whether a URL may be pulled from: it's an
/// [RTMP] one, and has a host.
///
/// [RTMP]: https://en.wikipedia.org/wiki/Real-Time_Messaging_Protocol
pub open spec fn is_input_src(url: UrlView) -> bool {
    &&& url.scheme == "rtmp"@ || url.scheme == "rtmps"@
    &&& url.has_host
}

/// [`Url`] of a [`RemoteInputSrc`].
///
/// Only [RTMP] URLs are allowed at the moment.
///
/// [`RemoteInputSrc`]: crate::state::RemoteInputSrc
/// [RTMP]: https://en.wikipedia.org/wiki/Real-Time_Messaging_Protocol
#[derive(Debug, Eq)]
pub struct InputSrcUrl(Url);

impl InputSrcUrl {
    /// What is read of this URL.
    pub closed spec fn view(&self) -> UrlView {
        self.0@
    }

    #[verifier::type_invariant]
    spec fn inv(self) -> bool {
        is_input_src(self.0@)
    }

    /// Creates a new [`InputSrcUrl`] if the given [`Url`] is suitable for that.
    #[must_use]
    pub fn new(url: Url) -> (made: Option<Self>)
        ensures
            made is Some <==> is_input_src(url@),
            made matches Some(m) ==> m@ == url@,
    {
        if (url.has_scheme("rtmp") || url.has_scheme("rtmps")) && url.has_host() {
            Some(Self(url))
        } else {
            None
        }
    }

    /// Creates a new [`InputSrcUrl`] if the given text is a suitable [`Url`].
    #[must_use]
    pub fn from_input_value(text: &str) -> (made: Option<Self>)
        ensures
            made is Some <==> (parsed_url(text@) matches Some(url) && is_input_src(url)),
            made matches Some(m) ==> parsed_url(text@) == Some(m@),
    {
        match Url::parse(text) {
            Some(url) => Self::new(url),
            None => None,
        }
    }

    /// Returns the [`Url`] itself.
    #[must_use]
    pub fn url(&self) -> (url: &Url)
        ensures
            url@ == self@,
            is_input_src(url@),
    {
        proof { use_type_invariant(self); }
        &self.0
    }
}

impl Clone for InputSrcUrl {
    fn clone(&self) -> (copy: Self)
        ensures
            copy == *self,
    {
        proof { use_type_invariant(self); }
        Self(self.0.clone())
    }
}

impl PartialEq for InputSrcUrl {
    fn eq(&self, other: &Self) -> (same: bool) {
        self.0 == other.0
    }
}

impl vstd::std_specs::cmp::PartialEqSpecImpl for InputSrcUrl {
    open spec fn obeys_eq_spec() -> bool {
        true
    }

    open spec fn eq_spec(&self, other: &Self) -> bool {
        self@.text == other@.text
    }
}

/// Tells whether a URL may be re-streamed to: it's an
/// [Icecast] or an [RTMP] one, and has a host.
///
/// [Icecast]: https://icecast.org
/// [RTMP]: https://en.wikipedia.org/wiki/Real-Time_Messaging_Protocol
pub open spec fn is_output_dst(url: UrlView) -> bool {
    &&& url.scheme == "icecast"@ || url.scheme == "rtmp"@ || url.scheme == "rtmps"@
    &&& url.has_host
}

/// [`Url`] of an [`Output::dst`].
///
/// Only [RTMP] and [Icecast] URLs are allowed at the moment.
///
/// [Icecast]: https://icecast.org
/// [`Output::dst`]: crate::state::Output::dst
/// [RTMP]: https://en.wikipedia.org/wiki/Real-Time_Messaging_Protocol
#[derive(Debug, Eq)]
pub struct OutputDstUrl(Url);

impl OutputDstUrl {
    /// What is read of this URL.
    pub closed spec fn view(&self) -> UrlView {
        self.0@
    }

    #[verifier::type_invariant]
    spec fn inv(self) -> bool {
        is_output_dst(self.0@)
    }

    /// Creates a new [`OutputDstUrl`] if the given [`Url`] is suitable for that.
    #[must_use]
    pub fn new(url: Url) -> (made: Option<Self>)
        ensures
            made is Some <==> is_output_dst(url@),
            made matches Some(m) ==> m@ == url@,
    {
        let suitable = url.has_scheme("icecast") || url.has_scheme("rtmp") || url.has_scheme(
            "rtmps",
        );
        if suitable && url.has_host() {
            Some(Self(url))
        } else {
            None
        }
    }

    /// Creates a new [`OutputDstUrl`] if the given text is a suitable [`Url`].
    #[must_use]
    pub fn from_input_value(text: &str) -> (made: Option<Self>)
        ensures
            made is Some <==> (parsed_url(text@) matches Some(url) && is_output_dst(url)),
            made matches Some(m) ==> parsed_url(text@) == Some(m@),
    {
        match Url::parse(text) {
            Some(url) => Self::new(url),
            None => None,
        }
    }

    /// Returns the [`Url`] itself.
    #[must_use]
    pub fn url(&self) -> (url: &Url)
        ensures
            url@ == self@,
            is_output_dst(url@),
    {
        proof { use_type_invariant(self); }
        &self.0
    }
}

impl Clone for OutputDstUrl {
    fn clone(&self) -> (copy: Self)
        ensures
            copy == *self,
    {
        proof { use_type_invariant(self); }
        Self(self.0.clone())
    }
}

impl PartialEq for OutputDstUrl {
    fn eq(&self, other: &Self) -> (same: bool) {
        self.0 == other.0
    }
}

impl vstd::std_specs::cmp::PartialEqSpecImpl for OutputDstUrl {
    open spec fn obeys_eq_spec() -> bool {
        true
    }

    open spec fn eq_spec(&self, other: &Self) -> bool {
        self@.text == other@.text
    }
}

/// Tells whether a URL may be mixed with: it's a
/// [TeamSpeak] one, and has a host.
///
/// [TeamSpeak]: https://teamspeak.com
pub open spec fn is_mixin_src(url: UrlView) -> bool {
    &&& url.scheme == "ts"@
    &&& url.has_host
}

/// [`Url`] of a [`Mixin::src`].
///
/// Only [TeamSpeak] URLs are allowed at the moment.
///
/// [`Mixin::src`]: crate::state::Mixin::src
/// [TeamSpeak]: https://teamspeak.com
#[derive(Debug, Eq)]
pub struct MixinSrcUrl(Url);

impl MixinSrcUrl {
    /// What is read of this URL.
    pub closed spec fn view(&self) -> UrlView {
        self.0@
    }

    #[verifier::type_invariant]
    spec fn inv(self) -> bool {
        is_mixin_src(self.0@)
    }

    /// Creates a new [`MixinSrcUrl`] if the given [`Url`] is suitable for that.
    #[must_use]
    pub fn new(url: Url) -> (made: Option<Self>)
        ensures
            made is Some <==> is_mixin_src(url@),
            made matches Some(m) ==> m@ == url@,
    {
        if url.has_scheme("ts") && url.has_host() {
            Some(Self(url))
        } else {
            None
        }
    }

    /// Creates a new [`MixinSrcUrl`] if the given text is a suitable [`Url`].
    #[must_use]
    pub fn from_input_value(text: &str) -> (made: Option<Self>)
        ensures
            made is Some <==> (parsed_url(text@) matches Some(url) && is_mixin_src(url)),
            made matches Some(m) ==> parsed_url(text@) == Some(m@),
    {
        match Url::parse(text) {
            Some(url) => Self::new(url),
            None => None,
        }
    }

    /// Returns the [`Url`] itself.
    #[must_use]
    pub fn url(&self) -> (url: &Url)
        ensures
            url@ == self@,
            is_mixin_src(url@),
    {
        proof { use_type_invariant(self); }
        &self.0
    }
}

impl Clone for MixinSrcUrl {
    fn clone(&self) -> (copy: Self)
        ensures
            copy == *self,
    {
        proof { use_type_invariant(self); }
        Self(self.0.clone())
    }
}

impl PartialEq for MixinSrcUrl {
    fn eq(&self, other: &Self) -> (same: bool) {
        self.0 == other.0
    }
}

impl vstd::std_specs::cmp::PartialEqSpecImpl for MixinSrcUrl {
    open spec fn obeys_eq_spec() -> bool {
        true
    }

    open spec fn eq_spec(&self, other: &Self) -> bool {
        self@.text == other@.text
    }
}

/// URLs are suitable exactly when they have a host and one of the schemes which are
/// allowed for them.
pub proof fn law_suitable_urls(url: UrlView)
    ensures
        is_input_src(url) <==> url.has_host && (url.scheme == "rtmp"@ || url.scheme == "rtmps"@),
        is_output_dst(url) <==> url.has_host && (url.scheme == "icecast"@ || url.scheme == "rtmp"@
            || url.scheme == "rtmps"@),
        is_mixin_src(url) <==> url.has_host && url.scheme == "ts"@,
{
}

/// Whatever may be pulled from may be re-streamed to, and nothing of that may be
/// mixed with.
pub proof fn law_kinds_of_urls(url: UrlView)
    ensures
        is_input_src(url) ==> is_output_dst(url),
        is_output_dst(url) ==> !is_mixin_src(url),
        is_output_dst(url) && !is_input_src(url) ==> url.scheme == "icecast"@,
{
    reveal_strlit("rtmp");
    reveal_strlit("rtmps");
    reveal_strlit("icecast");
    reveal_strlit("ts");
    assert("rtmp"@.len() == 4 && "rtmps"@.len() == 5 && "icecast"@.len() == 7 && "ts"@.len() == 2);
}

/// URL of the local media server is its address, has the scheme of it and has a
/// host.
pub proof fn law_local_url(path: Seq<char>)
    requires
        path.len() <= 100,
        forall|i: int|
            0 <= i < path.len() ==> {
                let c = #[trigger] path[i];
                97 <= c as int <= 122 || 45 <= c as int <= 57 && c as int != 46 || c as int == 95
            },
    ensures
        is_local_address("rtmp://127.0.0.1:1935/"@ + path),
        ({
            let url = local_url("rtmp://127.0.0.1:1935/"@ + path);
            &&& url.text == "rtmp://127.0.0.1:1935/"@ + path
            &&& url.scheme == "rtmp"@
            &&& url.has_host
        }),
{
    assert(is_local_path(path));
    assert("rtmp://127.0.0.1:1935/"@ + path == local_server() + path);
}

/// URLs are equal exactly when their serializations are.
pub proof fn law_urls_are_equal_by_texts(
    a: Url,
    b: Url,
    c: InputSrcUrl,
    d: InputSrcUrl,
    e: OutputDstUrl,
    f: OutputDstUrl,
    g: MixinSrcUrl,
    h: MixinSrcUrl,
)
    ensures
        a.eq_spec(&b) <==> a@.text == b@.text,
        c.eq_spec(&d) <==> c@.text == d@.text,
        e.eq_spec(&f) <==> e@.text == f@.text,
        g.eq_spec(&h) <==> g@.text == h@.text,
{
}

} // verus!
