//! What a client of the API server asks for, and what it makes of the answers.

use vstd::prelude::*;

use crate::apiserver::handlers::ApiErrorView;
use crate::text;

verus! {

/// Why a request failed.
#[derive(Debug, Clone, PartialEq)]
pub enum ClientError {
    Http { status: u16, message: String },
    Conflict { message: String },
    AlreadyExists,
    NotFound,
    /// The request or its answer did not get through.
    Transport(String),
    /// The answer could not be read.
    Json(String),
    /// The connection broke while it was read from.
    Io(String),
}

#[verifier::ext_equal]
pub enum ClientErrorView {
    Http { status: u16, message: Seq<char> },
    Conflict { message: Seq<char> },
    AlreadyExists,
    NotFound,
    Transport(Seq<char>),
    Json(Seq<char>),
    Io(Seq<char>),
}

impl DeepView for ClientError {
    type V = ClientErrorView;

    open spec fn deep_view(&self) -> ClientErrorView {
        match self {
            ClientError::Http { status, message } => ClientErrorView::Http {
                status: *status,
                message: message@,
            },
            ClientError::Conflict { message } => ClientErrorView::Conflict { message: message@ },
            ClientError::AlreadyExists => ClientErrorView::AlreadyExists,
            ClientError::NotFound => ClientErrorView::NotFound,
            ClientError::Transport(m) => ClientErrorView::Transport(m@),
            ClientError::Json(m) => ClientErrorView::Json(m@),
            ClientError::Io(m) => ClientErrorView::Io(m@),
        }
    }
}

impl ClientError {
    /// The error in words.
    pub fn message(&self) -> (s: String)
        ensures
            s@ == (match self.deep_view() {
                ClientErrorView::Http { status, message } => "HTTP "@ + text::decimal_chars(
                    status as nat,
                ) + ": "@ + message,
                ClientErrorView::Conflict { message } => "conflict: "@ + message,
                ClientErrorView::AlreadyExists => "already exists"@,
                ClientErrorView::NotFound => "not found"@,
                ClientErrorView::Transport(m) => m,
                ClientErrorView::Json(m) => m,
                ClientErrorView::Io(m) => m,
            }),
    {
        match self {
            ClientError::Http { status, message } => {
                let mut s = "HTTP ".to_owned();
                text::push_decimal(&mut s, *status as u64);
                s.append(": ");
                s.append(message.as_str());
                s
            },
            ClientError::Conflict { message } => "conflict: ".to_owned().concat(message.as_str()),
            ClientError::AlreadyExists => "already exists".to_owned(),
            ClientError::NotFound => "not found".to_owned(),
            ClientError::Transport(m) => m.clone(),
            ClientError::Json(m) => m.clone(),
            ClientError::Io(m) => m.clone(),
        }
    }
}

/// The body of a refusal, as far as a client reads it.
#[derive(Debug, Clone, PartialEq)]
pub struct StatusEnvelope {
    pub code: u16,
    pub message: String,
    pub reason: Option<String>,
}

#[verifier::ext_equal]
pub struct StatusEnvelopeView {
    pub code: u16,
    pub message: Seq<char>,
    pub reason: Option<Seq<char>>,
}

impl DeepView for StatusEnvelope {
    type V = StatusEnvelopeView;

    open spec fn deep_view(&self) -> StatusEnvelopeView {
        StatusEnvelopeView {
            code: self.code,
            message: self.message@,
            reason: self.reason.deep_view(),
        }
    }
}

/// What a refusal means. The reason tells the two conflicts apart: a name that
/// is taken, and a version that is out of date.
pub open spec fn error_of_envelope(status: u16, env: StatusEnvelopeView) -> ClientErrorView {
    if status == 404 {
        ClientErrorView::NotFound
    } else if status == 409 && env.reason == Some("AlreadyExists"@) {
        ClientErrorView::AlreadyExists
    } else if status == 409 {
        ClientErrorView::Conflict { message: env.message }
    } else {
        ClientErrorView::Http { status: env.code, message: env.message }
    }
}

pub fn map_envelope(status: u16, env: StatusEnvelope) -> (e: ClientError)
    ensures
        e.deep_view() == error_of_envelope(status, env.deep_view()),
{
    if status == 404 {
        return ClientError::NotFound;
    }
    if status == 409 {
        let taken = match &env.reason {
            Some(reason) => text::same(reason.as_str(), "AlreadyExists"),
            None => false,
        };
        return if taken {
            ClientError::AlreadyExists
        } else {
            ClientError::Conflict { message: env.message }
        };
    }
    ClientError::Http { status: env.code, message: env.message }
}

/// Decides whether an answer is a refusal: any status outside the two hundreds
/// is. What it means is read from its envelope; without one, the status and
/// the body are all there is.
pub fn check_status(status: u16, envelope: Option<StatusEnvelope>, body: &str) -> (r: Result<
    (),
    ClientError,
>)
    ensures
        match r {
            Ok(_) => 200 <= status < 300,
            Err(e) => !(200 <= status < 300) && e.deep_view() == (match envelope.deep_view() {
                Some(env) => error_of_envelope(status, env),
                None => ClientErrorView::Http { status, message: body@ },
            }),
        },
{
    if 200 <= status && status < 300 {
        return Ok(());
    }
    match envelope {
        Some(env) => Err(map_envelope(status, env)),
        None => Err(ClientError::Http { status, message: body.to_owned() }),
    }
}

/// A text without the slashes at its end.
pub open spec fn without_trailing_slashes(s: Seq<char>) -> Seq<char>
    decreases s.len(),
{
    if s.len() > 0 && s.last() == '/' {
        without_trailing_slashes(s.drop_last())
    } else {
        s
    }
}

/// Where the API server is.
#[derive(Debug, Clone, PartialEq)]
pub struct Address {
    pub base_url: String,
}

impl Address {
    pub fn new(base_url: &str) -> (a: Self)
        ensures
            a.base_url@ == without_trailing_slashes(base_url@),
    {
        let mut n: usize = base_url.unicode_len();
        assert(base_url@.take(n as int) =~= base_url@);
        while n > 0 && base_url.get_char(n - 1) == '/'
            invariant
                n <= base_url@.len(),
                without_trailing_slashes(base_url@) == without_trailing_slashes(
                    base_url@.take(n as int),
                ),
            decreases n,
        {
            assert(base_url@.take(n as int).drop_last() =~= base_url@.take(n - 1));
            n = n - 1;
        }
        let base = base_url.substring_char(0, n).to_owned();
        assert(base@ =~= base_url@.take(n as int));
        Address { base_url: base }
    }

    pub fn url(&self, path: &str) -> (url: String)
        ensures
            url@ == self.base_url@ + path@,
    {
        self.base_url.clone().concat(path)
    }
}

/// Kinds of objects that the API server has.
#[derive(Debug, Clone, Copy, PartialEq, Eq, Structural)]
pub enum Collection {
    Pods,
    ReplicaSets,
    Nodes,
    Services,
    Endpoints,
}

pub open spec fn path_of(c: Collection) -> Seq<char> {
    match c {
        Collection::Pods => "/api/v1/pods"@,
        Collection::ReplicaSets => "/api/v1/replicasets"@,
        Collection::Nodes => "/api/v1/nodes"@,
        Collection::Services => "/api/v1/services"@,
        Collection::Endpoints => "/api/v1/endpoints"@,
    }
}

impl Collection {
    /// Where objects of the kind are listed and created.
    pub fn path(self) -> (p: &'static str)
        ensures
            p@ == path_of(self),
    {
        match self {
            Collection::Pods => "/api/v1/pods",
            Collection::ReplicaSets => "/api/v1/replicasets",
            Collection::Nodes => "/api/v1/nodes",
            Collection::Services => "/api/v1/services",
            Collection::Endpoints => "/api/v1/endpoints",
        }
    }

    /// Where one object is read and replaced.
    pub fn object_path(self, name: &str) -> (p: String)
        ensures
            p@ == path_of(self) + "/"@ + name@,
    {
        let mut p = self.path().to_owned();
        p.append("/");
        p.append(name);
        p
    }

    /// Where one object of a version is deleted.
    pub fn delete_path(self, name: &str, rv: &str) -> (p: String)
        ensures
            p@ == path_of(self) + "/"@ + name@ + "?resourceVersion="@ + rv@,
    {
        let mut p = self.object_path(name);
        p.append("?resourceVersion=");
        p.append(rv);
        p
    }

    /// Where the status of one object of a version is replaced.
    pub fn status_path(self, name: &str, rv: &str) -> (p: String)
        ensures
            p@ == path_of(self) + "/"@ + name@ + "/status?resourceVersion="@ + rv@,
    {
        let mut p = self.object_path(name);
        p.append("/status?resourceVersion=");
        p.append(rv);
        p
    }

    /// Where changes since a version, or from now on, are watched.
    pub fn watch_path(self, from_rv: Option<&str>) -> (p: String)
        ensures
            p@ == (match from_rv {
                Some(rv) => path_of(self) + "?watch=true&resourceVersion="@ + rv@,
                None => path_of(self) + "?watch=true"@,
            }),
    {
        let mut p = self.path().to_owned();
        match from_rv {
            Some(rv) => {
                p.append("?watch=true&resourceVersion=");
                p.append(rv);
            },
            None => {
                p.append("?watch=true");
            },
        }
        p
    }
}

/// Where the Pods of one node are listed.
pub fn pods_on_node_path(node_name: &str) -> (p: String)
    ensures
        p@ == "/api/v1/pods?fieldSelector=spec.nodeName="@ + node_name@,
{
    "/api/v1/pods?fieldSelector=spec.nodeName=".to_owned().concat(node_name)
}

/// Where changes to the Pods of one node are watched.
pub fn watch_pods_on_node_path(node_name: &str, from_rv: Option<&str>) -> (p: String)
    ensures
        p@ == (match from_rv {
            Some(rv) => "/api/v1/pods?watch=true&fieldSelector=spec.nodeName="@ + node_name@
                + "&resourceVersion="@ + rv@,
            None => "/api/v1/pods?watch=true&fieldSelector=spec.nodeName="@ + node_name@,
        }),
{
    let mut p = "/api/v1/pods?watch=true&fieldSelector=spec.nodeName=".to_owned();
    p.append(node_name);
    if let Some(rv) = from_rv {
        p.append("&resourceVersion=");
        p.append(rv);
    }
    p
}

/// Where a Pod is bound to a node.
pub fn binding_path(pod_name: &str) -> (p: String)
    ensures
        p@ == "/api/v1/pods/"@ + pod_name@ + "/binding"@,
{
    let mut p = "/api/v1/pods/".to_owned();
    p.append(pod_name);
    p.append("/binding");
    p
}

/// Law: a client tells the refusals of the server apart. What was missing is
/// missing, a name that is taken is taken, a version that is out of date is a
/// conflict, and all else keeps its code and words.
pub proof fn refusals_reach_the_client(e: ApiErrorView)
    ensures
        error_of_envelope(
            e.code(),
            (StatusEnvelopeView {
                code: e.code(),
                message: e.message_chars(),
                reason: Some(e.reason()),
            }),
        ) == (match e {
            ApiErrorView::NotFound(_) => ClientErrorView::NotFound,
            ApiErrorView::AlreadyExists(_) => ClientErrorView::AlreadyExists,
            ApiErrorView::Conflict { .. } => ClientErrorView::Conflict {
                message: e.message_chars(),
            },
            _ => ClientErrorView::Http { status: e.code(), message: e.message_chars() },
        }),
{
    reveal_strlit("AlreadyExists");
    reveal_strlit("Conflict");
    assert("AlreadyExists"@.len() == 13);
    assert("Conflict"@.len() == 8);
}


/// Law: an address is what it was given, up to some slashes at its end, and ends
/// in none; a path is put right behind it.
pub proof fn addresses_end_in_no_slash(base_url: &str, a: &Address, path: &str, url: String)
    requires
        call_ensures(Address::new, (base_url,), *a),
        call_ensures(Address::url, (a, path), url),
    ensures
        a.base_url@.len() <= base_url@.len(),
        a.base_url@ == base_url@.take(a.base_url@.len() as int),
        forall|i: int| a.base_url@.len() <= i < base_url@.len() ==> #[trigger] base_url@[i] == '/',
        a.base_url@.len() > 0 ==> a.base_url@.last() != '/',
        url@ == a.base_url@ + path@,
{
    slashes_are_dropped(base_url@);
}

proof fn slashes_are_dropped(s: Seq<char>)
    ensures
        ({
            let kept = without_trailing_slashes(s);
            &&& kept.len() <= s.len()
            &&& kept == s.take(kept.len() as int)
            &&& forall|i: int| kept.len() <= i < s.len() ==> #[trigger] s[i] == '/'
            &&& kept.len() > 0 ==> kept.last() != '/'
        }),
    decreases s.len(),
{
    if s.len() > 0 && s.last() == '/' {
        let front = s.drop_last();
        slashes_are_dropped(front);
        let kept = without_trailing_slashes(front);
        assert(front.take(kept.len() as int) =~= s.take(kept.len() as int));
        assert forall|i: int| kept.len() <= i < s.len() implies #[trigger] s[i] == '/' by {
            if i < front.len() {
                assert(front[i] == s[i]);
            }
        }
    } else {
        assert(s.take(s.len() as int) =~= s);
    }
}

/// Law: an answer is a success exactly with a status in the two hundreds. Of
/// the refusals with an envelope, 404 means that nothing was found, 409 that the
/// name is taken or the version out of date, as the reason says; any other keeps
/// the envelope's code and words. Without an envelope, status and body are kept.
pub proof fn statuses_are_told_apart(
    status: u16,
    envelope: Option<StatusEnvelope>,
    body: &str,
    r: Result<(), ClientError>,
)
    requires
        call_ensures(check_status, (status, envelope, body), r),
    ensures
        r is Ok <==> 200 <= status <= 299,
        !(200 <= status <= 299) && envelope is None ==> (match r {
            Err(ClientError::Http { status: told, message }) => told == status && message@ == body@,
            _ => false,
        }),
        !(200 <= status <= 299) && envelope is Some ==> ({
            let env = envelope->0;
            let taken = env.reason is Some && env.reason->0@ == "AlreadyExists"@;
            match r {
                Err(ClientError::NotFound) => status == 404,
                Err(ClientError::AlreadyExists) => status == 409 && taken,
                Err(ClientError::Conflict { message }) => status == 409 && !taken && message@
                    == env.message@,
                Err(ClientError::Http { status: told, message }) => status != 404 && status != 409
                    && told == env.code && message@ == env.message@,
                _ => false,
            }
        }),
{
}

/// Law: each kind of object has its own path, below which its objects are read,
/// watched, deleted and given a status.
pub proof fn collections_have_their_paths(
    c: Collection,
    path: &'static str,
    name: &str,
    rv: &str,
    object: String,
    delete: String,
    status: String,
    watch: String,
    later: String,
)
    requires
        call_ensures(Collection::path, (c,), path),
        call_ensures(Collection::object_path, (c, name), object),
        call_ensures(Collection::delete_path, (c, name, rv), delete),
        call_ensures(Collection::status_path, (c, name, rv), status),
        call_ensures(Collection::watch_path, (c, None), watch),
        call_ensures(Collection::watch_path, (c, Some(rv)), later),
    ensures
        path@ == (match c {
            Collection::Pods => "/api/v1/pods"@,
            Collection::ReplicaSets => "/api/v1/replicasets"@,
            Collection::Nodes => "/api/v1/nodes"@,
            Collection::Services => "/api/v1/services"@,
            Collection::Endpoints => "/api/v1/endpoints"@,
        }),
        object@ == path@ + "/"@ + name@,
        delete@ == object@ + "?resourceVersion="@ + rv@,
        status@ == object@ + "/status?resourceVersion="@ + rv@,
        watch@ == path@ + "?watch=true"@,
        later@ == path@ + "?watch=true&resourceVersion="@ + rv@,
{
}

} // verus!
