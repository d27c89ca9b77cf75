//! Endpoints of a local [SRS] server that live streams are received on.
//!
//! [SRS]: https://github.com/ossrs/srs

use vstd::prelude::*;

use crate::addresses::{is_local_address, is_local_path, local_server, local_url, InputSrcUrl, Url};
use crate::ids::{
    digit_at, hex_digit, hyphenated, law_displayed_uuid_is_read_back, law_text_is_of_one_uuid,
    lemma_nibble, nibble, spells, RestreamId,
};
use crate::measures::Status;
use crate::names::{is_key, is_key_char, InputName};
use crate::srs::ClientId;

verus! {

/// `Input` receiving a live RTMP stream from a remote client on an `/in`
/// endpoint.
#[derive(Clone, Debug, PartialEq, Eq)]
pub struct PushInput {
    /// Name of a live stream to expose its endpoints with for receiving and
    /// re-streaming media traffic.
    pub name: InputName,
    /// `Status` of this `PushInput` indicating whether it receives media
    /// traffic.
    pub status: Status,
}

/// `Input` receiving a live RTMP stream from a remote client on two endpoints:
/// - `/main` for receiving a main live RTMP stream, once it goes offline the
///   `Input` switches to `/backup`;
/// - `/backup` for receiving a backup live RTMP stream, once `/main` is
///   restored the `Input` switches back to `/main`.
#[derive(Clone, Debug, PartialEq, Eq)]
pub struct FailoverPushInput {
    /// Name of a live RTMP stream to expose it with for receiving and
    /// re-streaming media traffic.
    pub name: InputName,
    /// `Status` of a `/main` endpoint indicating whether it receives media
    /// traffic.
    pub main_status: Status,
    /// ID of [SRS] client who publishes the ongoing live RTMP stream to
    /// a `/main` endpoint of this [`FailoverPushInput`].
    ///
    /// [SRS]: https://github.com/ossrs/srs
    pub main_srs_publisher_id: Option<ClientId>,
    /// `Status` of a `/backup` endpoint indicating whether it receives media
    /// traffic.
    pub backup_status: Status,
    /// ID of [SRS] client who publishes the ongoing live RTMP stream to
    /// a `/backup` endpoint of this [`FailoverPushInput`].
    ///
    /// [SRS]: https://github.com/ossrs/srs
    pub backup_srs_publisher_id: Option<ClientId>,
    /// Overall `Status` of this `FailoverPushInput` indicating whether a
    /// received media traffic is available.
    pub status: Status,
}

/// `Input` pulling a live RTMP stream from a remote server.
#[derive(Clone, Debug, PartialEq, Eq)]
pub struct PullInput {
    /// URL of a live stream to be pulled from.
    ///
    /// At the moment only [RTMP] is supported.
    ///
    /// [RTMP]: https://en.wikipedia.org/wiki/Real-Time_Messaging_Protocol
    pub src: InputSrcUrl,
    /// `Status` of this `PullInput` indicating whether it performs pulling.
    pub status: Status,
}

/// Way a live stream is received.
#[derive(Clone, Debug, PartialEq, Eq)]
pub enum Input {
    /// Receiving it on an `/in` endpoint.
    Push(PushInput),
    /// Receiving it on `/main` and `/backup` endpoints.
    FailoverPush(FailoverPushInput),
    /// Pulling it from a remote server.
    Pull(PullInput),
}

/// Re-stream of a live stream which is received on endpoints of a certain kind.
#[derive(Clone, Debug, PartialEq, Eq)]
pub struct Restream {
    /// Unique ID of this `Restream`.
    ///
    /// Once assigned, it never changes.
    pub id: RestreamId,
    /// `Input` that a live stream is received from.
    pub input: Input,
}

impl PushInput {
    /// Checks whether this [`PushInput`] is the same as `other` one, which is
    /// when their names are.
    #[must_use]
    pub fn is(&self, other: &Self) -> (same: bool)
        ensures
            same == (self.name@ == other.name@),
    {
        self.name == other.name
    }
}

impl PullInput {
    /// Checks whether this [`PullInput`] is the same as `other` one, which is
    /// when they pull from the same URL.
    #[must_use]
    pub fn is(&self, other: &Self) -> (same: bool)
        ensures
            same == (self.src@.text == other.src@.text),
    {
        self.src == other.src
    }
}

impl FailoverPushInput {
    /// Checks whether this [`FailoverPushInput`] is the same as `other` one,
    /// which is when their names are.
    #[must_use]
    pub fn is(&self, other: &Self) -> (same: bool)
        ensures
            same == (self.name@ == other.name@),
    {
        self.name == other.name
    }

    /// Tells whether either `/main` or `/backup` endpoint is online.
    pub open spec fn gets_traffic(self) -> bool {
        self.main_status == Status::Online || self.backup_status == Status::Online
    }

    /// Returns a local [SRS] URL of the currently active `/main` or `/backup`
    /// endpoint.
    ///
    /// It returns `/backup` if it's online while `/main` is not, otherwise
    /// returns `/main`.
    ///
    /// [SRS]: https://github.com/ossrs/srs
    #[must_use]
    pub fn from_url(&self) -> (url: Url)
        ensures
            url@ == local_url(
                local_server() + self.name@ + if self.backup_status == Status::Online
                    && self.main_status != Status::Online {
                    "/backup"@
                } else {
                    "/main"@
                },
            ),
            self.main_status == Status::Online || self.backup_status != Status::Online
                ==> url@.text == "rtmp://127.0.0.1:1935/"@ + self.name@ + "/main"@,
            self.main_status != Status::Online && self.backup_status == Status::Online
                ==> url@.text == "rtmp://127.0.0.1:1935/"@ + self.name@ + "/backup"@,
            url@.scheme == "rtmp"@ && url@.has_host,
    {
        let name = self.name.as_str();
        if self.backup_status == Status::Online && self.main_status != Status::Online {
            proof {
                reveal_strlit("/backup");
                lemma_name_is_local_path(name@);
            }
            local_endpoint(name, "/backup")
        } else {
            proof {
                reveal_strlit("/main");
                lemma_name_is_local_path(name@);
            }
            local_endpoint(name, "/main")
        }
    }

    /// Indicates whether this [`FailoverPushInput`] receives any media traffic
    /// on its `/main` or `/backup` endpoint.
    #[must_use]
    pub fn has_traffic(&self) -> (yes: bool)
        ensures
            yes == self.gets_traffic(),
            yes == (self.main_status == Status::Online || self.backup_status == Status::Online),
    {
        self.main_status == Status::Online || self.backup_status == Status::Online
    }
}

impl Input {
    /// [`Status`] of this [`Input`].
    pub open spec fn overall_status(self) -> Status {
        match self {
            Input::Push(input) => input.status,
            Input::FailoverPush(input) => input.status,
            Input::Pull(input) => input.status,
        }
    }

    /// This [`Input`] with the given [`Status`].
    pub open spec fn with_status(self, status: Status) -> Self {
        match self {
            Input::Push(input) => Input::Push(PushInput { status, ..input }),
            Input::FailoverPush(input) => {
                Input::FailoverPush(FailoverPushInput { status, ..input })
            },
            Input::Pull(input) => Input::Pull(PullInput { status, ..input }),
        }
    }

    /// Tells whether this [`Input`] is considered to be online: it either is
    /// such itself, or one of its failover endpoints is.
    pub open spec fn serves(self) -> bool {
        ||| self.overall_status() == Status::Online
        ||| self matches Input::FailoverPush(input) && input.gets_traffic()
    }

    /// Tells whether this [`Input`] receives the same live stream in the same
    /// way as the `other` one.
    pub open spec fn same_as(self, other: Self) -> bool {
        match (self, other) {
            (Input::Push(a), Input::Push(b)) => a.name@ == b.name@,
            (Input::FailoverPush(a), Input::FailoverPush(b)) => a.name@ == b.name@,
            (Input::Pull(a), Input::Pull(b)) => a.src@.text == b.src@.text,
            _ => false,
        }
    }

    /// Indicates whether this [`Input`] has [`Status::Online`].
    #[must_use]
    pub fn is_online(&self) -> (yes: bool)
        ensures
            yes == self.serves(),
    {
        match self {
            Input::Push(input) => input.status == Status::Online,
            Input::FailoverPush(input) => {
                // If `/in` endpoint goes offline, but there is still `/main`
                // or `/backup` endpoint is online, then failover switch is
                // happening at the moment, so the whole `Input` is considered
                // to be still online.
                input.status == Status::Online || input.main_status == Status::Online
                    || input.backup_status == Status::Online
            },
            Input::Pull(input) => input.status == Status::Online,
        }
    }

    /// Sets a `new` [`Status`] of this [`Input`].
    pub fn set_status(&mut self, new: Status)
        ensures
            *final(self) == old(self).with_status(new),
    {
        match self {
            Input::Push(input) => {
                input.status = new;
            },
            Input::FailoverPush(input) => {
                input.status = new;
            },
            Input::Pull(input) => {
                input.status = new;
            },
        }
    }

    /// Checks whether this [`Input`] is the same as `other` one.
    #[must_use]
    pub fn is(&self, other: &Self) -> (same: bool)
        ensures
            same == self.same_as(*other),
    {
        match (self, other) {
            (Input::Push(a), Input::Push(b)) => a.is(b),
            (Input::FailoverPush(a), Input::FailoverPush(b)) => a.is(b),
            (Input::Pull(a), Input::Pull(b)) => a.is(b),
            _ => false,
        }
    }
}

impl Restream {
    /// `app` parameter of the [SRS] media stream that this [`Restream`] serves.
    ///
    /// [SRS]: https://github.com/ossrs/srs
    pub open spec fn srs_app(self) -> Seq<char> {
        match self.input {
            Input::Push(input) => input.name@,
            Input::FailoverPush(input) => input.name@,
            Input::Pull(_) => "pull_"@ + hyphenated(self.id.0),
        }
    }

    /// Tells whether the given `app` parameter of a [SRS] media stream is the one
    /// of a live stream that this [`Restream`] receives: either its name or, if
    /// it's pulled, a text of its ID after the `pull_` prefix.
    ///
    /// [SRS]: https://github.com/ossrs/srs
    pub open spec fn is_served_as(self, app: Seq<char>) -> bool {
        match self.input {
            Input::Push(input) => input.name@ == app,
            Input::FailoverPush(input) => input.name@ == app,
            Input::Pull(_) => "pull_"@.is_prefix_of(app) && spells(
                app.skip("pull_"@.len() as int),
                self.id.0,
            ),
        }
    }

    /// Returns an URL of the remote server that this [`Restream`] receives a
    /// live stream from, if any.
    #[must_use]
    pub fn upstream_url(&self) -> (url: Option<&InputSrcUrl>)
        ensures
            match self.input {
                Input::Pull(input) => url == Some(&input.src),
                _ => url is None,
            },
    {
        if let Input::Pull(input) = &self.input {
            Some(&input.src)
        } else {
            None
        }
    }

    /// Returns an URL of the local [SRS] server that the received live stream
    /// by this [`Restream`] may be pulled from.
    ///
    /// [SRS]: https://github.com/ossrs/srs
    #[must_use]
    pub fn srs_url(&self) -> (url: Url)
        ensures
            url@ == local_url(local_server() + self.srs_app() + "/in"@),
            url@.text == "rtmp://127.0.0.1:1935/"@ + self.srs_app() + "/in"@,
            url@.scheme == "rtmp"@ && url@.has_host,
    {
        proof {
            reveal_strlit("/in");
        }
        match &self.input {
            Input::Push(input) => {
                let name = input.name.as_str();
                proof {
                    lemma_name_is_local_path(name@);
                }
                local_endpoint(name, "/in")
            },
            Input::FailoverPush(input) => {
                let name = input.name.as_str();
                proof {
                    lemma_name_is_local_path(name@);
                }
                local_endpoint(name, "/in")
            },
            Input::Pull(_) => {
                let app = "pull_".to_owned().concat(self.id.display().as_str());
                proof {
                    lemma_pull_is_local_path(self.id.0);
                }
                local_endpoint(app.as_str(), "/in")
            },
        }
    }

    /// Checks whether the given `app` parameter of a [SRS] media stream is
    /// related to this [`Restream::input`].
    ///
    /// [SRS]: https://github.com/ossrs/srs
    #[must_use]
    pub fn uses_srs_app(&self, app: &str) -> (uses: bool)
        ensures
            uses == self.is_served_as(app@),
            self.input matches Input::Push(input) ==> uses == (app@ == input.name@),
            self.input matches Input::FailoverPush(input) ==> uses == (app@ == input.name@),
    {
        match &self.input {
            Input::Push(input) => input.name == *app,
            Input::FailoverPush(input) => input.name == *app,
            Input::Pull(_) => {
                proof {
                    reveal_strlit("pull_");
                }
                let len: usize = app.unicode_len();
                if len < 5 || !starts_with_pull(app) {
                    return false;
                }
                let id = app.substring_char(5, len);
                assert(id@ == app@.skip(5));
                match RestreamId::parse(id) {
                    Some(parsed) => {
                        proof {
                            if spells(id@, self.id.0) {
                                law_text_is_of_one_uuid(id@, parsed.0, self.id.0);
                            }
                        }
                        parsed == self.id
                    },
                    None => false,
                }
            },
        }
    }
}

/// Tells whether the `app` starts with `pull_`.
fn starts_with_pull(app: &str) -> (yes: bool)
    requires
        app@.len() >= 5,
    ensures
        yes == "pull_"@.is_prefix_of(app@),
{
    proof {
        reveal_strlit("pull_");
    }
    let start = app.substring_char(0, 5);
    assert(start@ == "pull_"@ <==> "pull_"@.is_prefix_of(app@));
    start.to_owned() == "pull_".to_owned()
}

/// Forms a URL of an endpoint of the local media server.
fn local_endpoint(app: &str, endpoint: &str) -> (url: Url)
    requires
        is_local_path(app@),
        is_local_path(endpoint@),
        app@.len() + endpoint@.len() <= 100,
    ensures
        url@ == local_url(local_server() + app@ + endpoint@),
{
    let text = "rtmp://127.0.0.1:1935/".to_owned().concat(app).concat(endpoint);
    proof {
        let path = app@ + endpoint@;
        assert(text@ == local_server() + path);
        assert(is_local_path(path));
        assert(is_local_address(text@));
    }
    Url::parse(text.as_str()).unwrap()
}

/// Key may stand in a path of the local media server.
proof fn lemma_name_is_local_path(name: Seq<char>)
    requires
        is_key(name),
    ensures
        is_local_path(name),
        name.len() <= 20,
{
}

/// What stands for a pulled live stream may stand in a path of the local media
/// server.
proof fn lemma_pull_is_local_path(uuid: u128)
    ensures
        is_local_path("pull_"@ + hyphenated(uuid)),
        ("pull_"@ + hyphenated(uuid)).len() == 41,
{
    reveal_strlit("pull_");
    let path = "pull_"@ + hyphenated(uuid);
    assert forall|i: int| 0 <= i < path.len() implies is_key_char(#[trigger] path[i]) by {
        if i >= 5 {
            let place = i - 5;
            assert(path[i] == hyphenated(uuid)[place]);
            let n = nibble(uuid, digit_at(place));
            lemma_nibble(uuid, digit_at(place));
            assert(is_key_char(hex_digit(n)));
        }
    }
}

/// Receiving traffic on either of its endpoints, an input is online, whatever
/// its own status is. Without traffic on both of them, it's online exactly when
/// its own status is so.
pub proof fn law_traffic_means_online(input: FailoverPushInput)
    ensures
        Input::FailoverPush(input).serves() <==> input.gets_traffic() || input.status
            == Status::Online,
{
}

/// Once a status of an input is set, it's the one it has, and the last one set
/// is what counts. It remains the same input, which is online once that is set.
pub proof fn law_status_set(input: Input, first: Status, last: Status)
    ensures
        input.with_status(last).overall_status() == last,
        input.with_status(first).with_status(last) == input.with_status(last),
        input.with_status(input.overall_status()) == input,
        input.with_status(last).same_as(input),
        input.with_status(Status::Online).serves(),
{
}

/// Being the same input is an equivalence.
pub proof fn law_same_inputs(a: Input, b: Input, c: Input)
    ensures
        a.same_as(a),
        a.same_as(b) ==> b.same_as(a),
        a.same_as(b) && b.same_as(c) ==> a.same_as(c),
{
}

/// A restream is served as what stands in the URL it may be pulled from.
pub proof fn law_restream_is_served_by_its_url(restream: Restream)
    ensures
        restream.is_served_as(restream.srs_app()),
{
    let app = restream.srs_app();
    if restream.input is Pull {
        reveal_strlit("pull_");
        law_displayed_uuid_is_read_back(restream.id.0);
        assert(app.skip(5) == hyphenated(restream.id.0));
        assert("pull_"@.is_prefix_of(app));
    }
}

/// Pulled restreams with different IDs are never served as one and the same.
pub proof fn law_pulled_restreams_are_served_apart(a: Restream, b: Restream, app: Seq<char>)
    requires
        a.input is Pull,
        b.input is Pull,
        a.is_served_as(app),
        b.is_served_as(app),
    ensures
        a.id == b.id,
{
    law_text_is_of_one_uuid(app.skip("pull_"@.len() as int), a.id.0, b.id.0);
}

/// Pushed restream is served as an app exactly when the app is its name, which is
/// what stands in its URL. So pushed restreams with different names are never
/// served as one and the same.
pub proof fn law_pushed_restream_is_served_by_name(a: Restream, b: Restream, app: Seq<char>)
    ensures
        a.input matches Input::Push(input) ==> {
            &&& a.is_served_as(app) <==> app == input.name@
            &&& a.srs_app() == input.name@
        },
        a.input matches Input::FailoverPush(input) ==> {
            &&& a.is_served_as(app) <==> app == input.name@
            &&& a.srs_app() == input.name@
        },
        !(a.input is Pull) ==> (a.is_served_as(app) <==> app == a.srs_app()),
        !(a.input is Pull) && !(b.input is Pull) && a.is_served_as(app) && b.is_served_as(app)
            ==> a.srs_app() == b.srs_app(),
{
}

/// Pulled restream is served as an app exactly when the app is `pull_` followed by
/// a text of its ID, whatever it's pulled from. Its URL has the hyphenated one.
pub proof fn law_pulled_restream_is_served_by_id(restream: Restream, app: Seq<char>)
    requires
        restream.input is Pull,
    ensures
        restream.is_served_as(app) <==> app.len() >= 5 && app.take(5) == "pull_"@ && spells(
            app.skip(5),
            restream.id.0,
        ),
        restream.srs_app() == "pull_"@ + hyphenated(restream.id.0),
{
    reveal_strlit("pull_");
    if app.len() >= 5 {
        assert("pull_"@.is_prefix_of(app) <==> app.take(5) == "pull_"@);
    }
}

/// Pushed and pulled inputs are online exactly when their statuses are so, while a
/// failover one is so also when one of its endpoints is.
pub proof fn law_online_statuses(push: PushInput, failover: FailoverPushInput, pull: PullInput)
    ensures
        Input::Push(push).serves() <==> push.status == Status::Online,
        Input::Pull(pull).serves() <==> pull.status == Status::Online,
        Input::FailoverPush(failover).serves() <==> {
            ||| failover.status == Status::Online
            ||| failover.main_status == Status::Online
            ||| failover.backup_status == Status::Online
        },
        failover.gets_traffic() <==> failover.main_status == Status::Online
            || failover.backup_status == Status::Online,
{
}

/// Setting a status of an input sets its own one, and nothing else of it.
pub proof fn law_set_status(
    push: PushInput,
    failover: FailoverPushInput,
    pull: PullInput,
    status: Status,
)
    ensures
        ({
            let after = Input::Push(push).with_status(status);
            &&& after matches Input::Push(a)
            &&& a.name == push.name
            &&& a.status == status
        }),
        ({
            let after = Input::Pull(pull).with_status(status);
            &&& after matches Input::Pull(a)
            &&& a.src == pull.src
            &&& a.status == status
        }),
        ({
            let after = Input::FailoverPush(failover).with_status(status);
            &&& after matches Input::FailoverPush(a)
            &&& a.name == failover.name
            &&& a.status == status
            &&& a.main_status == failover.main_status
            &&& a.main_srs_publisher_id == failover.main_srs_publisher_id
            &&& a.backup_status == failover.backup_status
            &&& a.backup_srs_publisher_id == failover.backup_srs_publisher_id
        }),
        Input::Push(push).overall_status() == push.status,
        Input::Pull(pull).overall_status() == pull.status,
        Input::FailoverPush(failover).overall_status() == failover.status,
{
}

/// Inputs are the same exactly when they are of one kind, and pushed ones have
/// the same name, while pulled ones have the same source.
pub proof fn law_same_by_kind(a: Input, b: Input)
    ensures
        a.same_as(b) <==> {
            ||| a is Push && b is Push && a->Push_0.name@ == b->Push_0.name@
            ||| a is FailoverPush && b is FailoverPush && a->FailoverPush_0.name@
                == b->FailoverPush_0.name@
            ||| a is Pull && b is Pull && a->Pull_0.src@.text == b->Pull_0.src@.text
        },
{
}

/// Pushed restream uses an app exactly when the very same app stands in its URL.
pub proof fn law_call_uses_app_of_url(restream: Restream, url: Url, app: &str, uses: bool)
    requires
        !(restream.input is Pull),
        call_ensures(Restream::srs_url, (&restream,), url),
        call_ensures(Restream::uses_srs_app, (&restream, app), uses),
    ensures
        uses <==> url@.text == "rtmp://127.0.0.1:1935/"@ + app@ + "/in"@,
{
    let (server, end) = ("rtmp://127.0.0.1:1935/"@, "/in"@);
    let name = restream.srs_app();
    assert(url@.text == server + name + end);
    if url@.text == server + app@ + end {
        let (x, y) = (server + name + end, server + app@ + end);
        assert(x.len() == y.len());
        assert forall|i: int| 0 <= i < app@.len() implies name[i] == app@[i] by {
            assert(x[server.len() + i] == name[i]);
            assert(y[server.len() + i] == app@[i]);
        }
        assert(name =~= app@);
    }
}

/// Pushed restreams with different names never use one and the same app.
pub proof fn law_calls_never_share_app(a: Restream, b: Restream, app: &str, of_a: bool, of_b: bool)
    requires
        call_ensures(Restream::uses_srs_app, (&a, app), of_a),
        call_ensures(Restream::uses_srs_app, (&b, app), of_b),
        !(a.input is Pull),
        !(b.input is Pull),
        (match a.input {
            Input::Push(input) => input.name@,
            Input::FailoverPush(input) => input.name@,
            Input::Pull(_) => seq![],
        }) != (match b.input {
            Input::Push(input) => input.name@,
            Input::FailoverPush(input) => input.name@,
            Input::Pull(_) => seq![],
        }),
    ensures
        !(of_a && of_b),
{
}

/// Input is online exactly when its status is so, or the one of either endpoint of
/// it is, if it's a failover one.
pub proof fn law_call_tells_online(input: Input, yes: bool)
    requires
        call_ensures(Input::is_online, (&input,), yes),
    ensures
        input matches Input::Push(a) ==> (yes <==> a.status == Status::Online),
        input matches Input::Pull(a) ==> (yes <==> a.status == Status::Online),
        input matches Input::FailoverPush(a) ==> (yes <==> {
            ||| a.status == Status::Online
            ||| a.main_status == Status::Online
            ||| a.backup_status == Status::Online
        }),
{
}

/// Setting a status of an input changes nothing else of it.
pub proof fn law_call_sets_status(input: &mut Input, new: Status)
    requires
        call_ensures(Input::set_status, (input, new), ()),
    ensures
        *old(input) matches Input::Push(a) ==> *final(input) == Input::Push(
            PushInput { name: a.name, status: new },
        ),
        *old(input) matches Input::Pull(a) ==> *final(input) == Input::Pull(
            PullInput { src: a.src, status: new },
        ),
        *old(input) matches Input::FailoverPush(a) ==> *final(input) == Input::FailoverPush(
            FailoverPushInput {
                name: a.name,
                main_status: a.main_status,
                main_srs_publisher_id: a.main_srs_publisher_id,
                backup_status: a.backup_status,
                backup_srs_publisher_id: a.backup_srs_publisher_id,
                status: new,
            },
        ),
{
}

/// Inputs are the same exactly when they are of the same kind, and have the same
/// name or the same source.
pub proof fn law_call_tells_same(a: Input, b: Input, same: bool)
    requires
        call_ensures(Input::is, (&a, &b), same),
    ensures
        same <==> {
            ||| a is Push && b is Push && a->Push_0.name@ == b->Push_0.name@
            ||| a is FailoverPush && b is FailoverPush && a->FailoverPush_0.name@
                == b->FailoverPush_0.name@
            ||| a is Pull && b is Pull && a->Pull_0.src@.text == b->Pull_0.src@.text
        },
{
}

} // verus!
