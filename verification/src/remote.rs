//! The remote kernel-session client.
//!
//! A stateless, cheaply-duplicable client for a kernel-management REST
//! API, and a session handle composing that client with the transport
//! endpoint derived from the session's identity. The client never performs
//! I/O itself: it builds each request ([`HttpRequest`]) and interprets
//! each response, and the surrounding application sends and receives.
//! URL parsing and joining are done by an outside parser behind trusted
//! functions, whose results are named: [`parsed_url`] and [`joined_url`]
//! are each a function of their arguments alone.

use vstd::prelude::*;

use crate::Error;
use crate::json::{JsonField, JsonSpec, JsonValue, arr_model, obj_model};
use crate::notebook::{req_num_ok, req_num_of, req_str_ok, req_str_of};
use crate::text::{parse_json_text, parsed_json, render_json_text, printed_json};

verus! {

/// The normalized serialization of a string parsed as an absolute URL, if
/// it parses.
pub uninterp spec fn parsed_url(s: Seq<char>) -> Option<Seq<char>>;

/// The serialization of a base URL joined with a path reference, if the
/// join is possible.
pub uninterp spec fn joined_url(base: Seq<char>, path: Seq<char>) -> Option<Seq<char>>;

/// Whether a string is a valid timestamp in the interchange date-time
/// form.
pub uninterp spec fn iso_time_ok(s: Seq<char>) -> bool;

/// Relies on `url::Url::parse` and `Url::to_string`: validates and
/// normalizes a server URL.
#[verifier::external_body]
fn normalize_url(s: &str) -> (r: Option<String>)
    ensures
        r matches Some(u) ==> parsed_url(s@) == Some(u@),
        r is None ==> parsed_url(s@) is None,
{
    match url::Url::parse(s) {
        Ok(u) => Some(u.to_string()),
        Err(_) => None,
    }
}

/// Relies on `url::Url::parse`, `Url::join` and `Url::to_string`: joins a
/// base URL with a path reference, as an absolute-path join replaces the
/// base's path.
#[verifier::external_body]
fn join_url(base: &str, path: &str) -> (r: Option<String>)
    ensures
        r matches Some(u) ==> joined_url(base@, path@) == Some(u@),
        r is None ==> joined_url(base@, path@) is None,
{
    match url::Url::parse(base) {
        Ok(b) => match b.join(path) {
            Ok(u) => Some(u.to_string()),
            Err(_) => None,
        },
        Err(_) => None,
    }
}

/// Relies on `time::OffsetDateTime::parse` with the well-known
/// interchange format: recognizes a timestamp.
#[verifier::external_body]
fn is_iso_timestamp(s: &str) -> (r: bool)
    ensures
        r == iso_time_ok(s@),
{
    time::OffsetDateTime::parse(s, &time::format_description::well_known::Iso8601::DEFAULT).is_ok()
}

/// The HTTP method of a request this client builds.
#[derive(Clone, Copy, Debug, PartialEq, Eq, Structural)]
pub enum HttpMethod {
    Get,
    Post,
    Delete,
}

/// One REST request, ready for the application to send: method, absolute
/// URL, the authorization header value, and an optional JSON body.
#[derive(Clone, Debug, PartialEq, Eq)]
pub struct HttpRequest {
    /// The HTTP method.
    pub method: HttpMethod,
    /// The absolute request URL.
    pub url: String,
    /// The value of the authorization header, `token <token>`.
    pub auth: String,
    /// The JSON body, where the request carries one.
    pub body: Option<String>,
}

/// A successful HTTP status.
pub open spec fn is_success(status: u16) -> bool {
    200 <= status < 300
}

/// Every character is visible ASCII, so the token can stand in a header
/// value.
pub open spec fn token_ok(s: Seq<char>) -> bool {
    forall|i: int| 0 <= i < s.len() ==> 0x21 <= (#[trigger] s[i]) as int <= 0x7e
}

/// Stateless handle to one remote server: base URL and auth token. It is
/// immutable after construction and safe to duplicate; every request it
/// builds carries the bearer-style authorization header.
#[derive(Debug, PartialEq, Eq)]
pub struct JupyterClient {
    /// The validated, normalized server URL.
    pub server_url: String,
    /// The access token presented with every request.
    pub token: String,
}

impl JupyterClient {
    /// The authorization header value of this client.
    pub open spec fn auth_spec(self) -> Seq<char> {
        "token "@ + self.token@
    }

    /// Validate the server URL and authorization material; no connection
    /// is made.
    pub fn new(server_url: &str, token: &str) -> (r: Result<JupyterClient, Error>)
        ensures
            r is Ok <==> parsed_url(server_url@) is Some && token_ok(token@),
            r matches Ok(c) ==> Some(c.server_url@) == parsed_url(server_url@) && c.token@
                == token@,
            r matches Err(e) ==> e is Config,
    {
        let n = token.unicode_len();
        let mut i: usize = 0;
        while i < n
            invariant
                n == token@.len(),
                0 <= i <= n,
                forall|j: int| 0 <= j < i ==> 0x21 <= (#[trigger] token@[j]) as int <= 0x7e,
            decreases n - i,
        {
            let c = token.get_char(i);
            let u = c as u32;
            if u < 0x21 || u > 0x7e {
                return Err(Error::Config("token: not a header value".to_owned()));
            }
            i += 1;
        }
        match normalize_url(server_url) {
            Some(u) => Ok(JupyterClient { server_url: u, token: token.to_owned() }),
            Option::None => Err(Error::Config("server url: cannot be parsed".to_owned())),
        }
    }

    /// A copy sharing no state, field for field.
    pub fn duplicate(&self) -> (r: JupyterClient)
        ensures
            r.server_url@ == self.server_url@,
            r.token@ == self.token@,
    {
        JupyterClient { server_url: self.server_url.clone(), token: self.token.clone() }
    }

    /// The authorization header value, `token <token>`.
    pub fn auth_header(&self) -> (r: String)
        ensures
            r@ == self.auth_spec(),
    {
        let mut s = "token ".to_owned();
        s.append(self.token.as_str());
        s
    }

    fn request_for(&self, method: HttpMethod, path: &str, body: Option<String>) -> (r: Result<
        HttpRequest,
        Error,
    >)
        ensures
            r is Ok <==> joined_url(self.server_url@, path@) is Some,
            r matches Ok(q) ==> q.method == method && q.url@ == joined_url(
                self.server_url@,
                path@,
            )->Some_0 && q.auth@ == self.auth_spec() && q.body == body,
            r matches Err(e) ==> e is Config,
    {
        match join_url(self.server_url.as_str(), path) {
            Some(u) => Ok(HttpRequest { method, url: u, auth: self.auth_header(), body }),
            Option::None => Err(Error::Config("server url: cannot be joined".to_owned())),
        }
    }

    /// The request that asks the server for its API version.
    pub fn api_version_request(&self) -> (r: Result<HttpRequest, Error>)
        ensures
            r is Ok <==> joined_url(self.server_url@, "/api"@) is Some,
            r matches Ok(q) ==> q.method == HttpMethod::Get && q.url@ == joined_url(
                self.server_url@,
                "/api"@,
            )->Some_0 && q.auth@ == self.auth_spec() && q.body is None,
            r matches Err(e) ==> e is Config,
    {
        self.request_for(HttpMethod::Get, "/api", None)
    }

    /// The request that lists the active kernels.
    pub fn list_kernels_request(&self) -> (r: Result<HttpRequest, Error>)
        ensures
            r is Ok <==> joined_url(self.server_url@, "/api/kernels"@) is Some,
            r matches Ok(q) ==> q.method == HttpMethod::Get && q.url@ == joined_url(
                self.server_url@,
                "/api/kernels"@,
            )->Some_0 && q.auth@ == self.auth_spec() && q.body is None,
            r matches Err(e) ==> e is Config,
    {
        self.request_for(HttpMethod::Get, "/api/kernels", None)
    }

    /// The request that fetches one kernel by its id.
    pub fn get_kernel_request(&self, kernel_id: &str) -> (r: Result<HttpRequest, Error>)
        ensures
            r is Ok <==> joined_url(self.server_url@, "/api/kernels/"@ + kernel_id@) is Some,
            r matches Ok(q) ==> q.method == HttpMethod::Get && q.url@ == joined_url(
                self.server_url@,
                "/api/kernels/"@ + kernel_id@,
            )->Some_0 && q.auth@ == self.auth_spec() && q.body is None,
            r matches Err(e) ==> e is Config,
    {
        let mut path = "/api/kernels/".to_owned();
        path.append(kernel_id);
        self.request_for(HttpMethod::Get, path.as_str(), None)
    }

    /// The request that creates a kernel from the named specification; its
    /// body is the JSON object naming it.
    pub fn create_kernel_request(&self, spec_name: &str) -> (r: Result<HttpRequest, Error>)
        ensures
            r is Ok <==> joined_url(self.server_url@, "/api/kernels"@) is Some,
            r matches Ok(q) ==> q.method == HttpMethod::Post && q.url@ == joined_url(
                self.server_url@,
                "/api/kernels"@,
            )->Some_0 && q.auth@ == self.auth_spec() && (q.body matches Some(b) && b@
                == printed_json(
                JsonSpec::Obj(seq![("name"@, JsonSpec::Str(spec_name@))]),
            )),
            r matches Err(e) ==> e is Config,
    {
        let mut fields: Vec<JsonField> = Vec::new();
        fields.push(JsonField { key: "name".to_owned(), value: JsonValue::Str(spec_name.to_owned()) });
        let v = JsonValue::Obj(fields);
        proof {
            assert(obj_model(v->Obj_0@) =~= seq![("name"@, JsonSpec::Str(spec_name@))]);
        }
        let body = render_json_text(&v);
        self.request_for(HttpMethod::Post, "/api/kernels", Some(body))
    }

    /// The request that deletes one kernel by its id.
    pub fn kill_kernel_request(&self, kernel_id: &str) -> (r: Result<HttpRequest, Error>)
        ensures
            r is Ok <==> joined_url(self.server_url@, "/api/kernels/"@ + kernel_id@) is Some,
            r matches Ok(q) ==> q.method == HttpMethod::Delete && q.url@ == joined_url(
                self.server_url@,
                "/api/kernels/"@ + kernel_id@,
            )->Some_0 && q.auth@ == self.auth_spec() && q.body is None,
            r matches Err(e) ==> e is Config,
    {
        let mut path = "/api/kernels/".to_owned();
        path.append(kernel_id);
        self.request_for(HttpMethod::Delete, path.as_str(), None)
    }
}

/// Server-reported state of one kernel session, as of the request.
#[derive(Debug, PartialEq, Eq)]
pub struct KernelInfo {
    /// The unique identifier of the kernel.
    pub id: String,
    /// Name of the type of kernel being run.
    pub name: String,
    /// Last-activity timestamp, in the interchange date-time form.
    pub last_activity: String,
    /// The execution state of the kernel.
    pub execution_state: String,
    /// The number of active connections to the kernel.
    pub connections: u32,
}

/// A JSON value in the shape of kernel information.
pub open spec fn kernel_info_ok(j: JsonSpec) -> bool {
    j matches JsonSpec::Obj(o) && req_str_ok(o, "id"@) && req_str_ok(o, "name"@) && req_str_ok(
        o,
        "last_activity"@,
    ) && iso_time_ok(req_str_of(o, "last_activity"@)) && req_str_ok(o, "execution_state"@)
        && req_num_ok(o, "connections"@, 0xffff_ffff)
}

/// The decoded information corresponds to the JSON, field for field.
pub open spec fn kernel_info_matches(k: KernelInfo, j: JsonSpec) -> bool {
    j matches JsonSpec::Obj(o) && k.id@ == req_str_of(o, "id"@) && k.name@ == req_str_of(
        o,
        "name"@,
    ) && k.last_activity@ == req_str_of(o, "last_activity"@) && k.execution_state@ == req_str_of(
        o,
        "execution_state"@,
    ) && k.connections as int == req_num_of(o, "connections"@)
}

/// Decode one kernel-information object.
pub fn decode_kernel_info(v: &JsonValue) -> (r: Result<KernelInfo, Error>)
    ensures
        r is Ok <==> kernel_info_ok(v.model()),
        r matches Ok(k) ==> kernel_info_matches(k, v.model()),
        r matches Err(e) ==> e is Format,
{
    let o = match v {
        JsonValue::Obj(o) => o,
        _ => {
            return Err(Error::Format("kernel: expected object".to_owned()));
        },
    };
    let id = match crate::notebook::take_req_str(o, "id") {
        Ok(x) => x,
        Err(e) => {
            return Err(e);
        },
    };
    let name = match crate::notebook::take_req_str(o, "name") {
        Ok(x) => x,
        Err(e) => {
            return Err(e);
        },
    };
    let last_activity = match crate::notebook::take_req_str(o, "last_activity") {
        Ok(x) => x,
        Err(e) => {
            return Err(e);
        },
    };
    if !is_iso_timestamp(last_activity.as_str()) {
        return Err(Error::Format("last_activity: not a timestamp".to_owned()));
    }
    let execution_state = match crate::notebook::take_req_str(o, "execution_state") {
        Ok(x) => x,
        Err(e) => {
            return Err(e);
        },
    };
    let connections = match crate::notebook::take_req_num(o, "connections", 0xffff_ffff) {
        Ok(x) => x as u32,
        Err(e) => {
            return Err(e);
        },
    };
    Ok(KernelInfo { id, name, last_activity, execution_state, connections })
}

/// Interpret the response to the API-version request. A non-success
/// status is a remote failure wrapping that status and body; a success
/// body that is not an object naming the version is a malformed-content
/// failure; a success body names the version.
pub fn interpret_api_version(status: u16, body: &str) -> (r: Result<String, Error>)
    ensures
        r is Ok <==> is_success(status) && (parsed_json(body@) matches Some(j) && j matches
            JsonSpec::Obj(o) && req_str_ok(o, "version"@)),
        r matches Ok(ver) ==> ver@ == req_str_of(parsed_json(body@)->Some_0->Obj_0, "version"@),
        !is_success(status) ==> (r matches Err(e) && e matches Error::Remote(es, eb) && es == status
            && eb@ == body@),
        is_success(status) ==> (r matches Err(e) ==> e is Format),
{
    if !(200 <= status && status < 300) {
        return Err(Error::Remote(status, body.to_owned()));
    }
    match parse_json_text(body) {
        Some(JsonValue::Obj(o)) => match crate::notebook::take_req_str(&o, "version") {
            Ok(ver) => Ok(ver),
            Err(e) => Err(e),
        },
        Some(_) => Err(Error::Format("version".to_owned())),
        Option::None => Err(Error::Format("malformed JSON".to_owned())),
    }
}

/// Interpret the response to a single-kernel lookup: a 404 is the
/// explicit not-found outcome, not an error; any other non-success status
/// is a remote failure; a success body is kernel information.
pub fn interpret_get_kernel(status: u16, body: &str) -> (r: Result<Option<KernelInfo>, Error>)
    ensures
        status == 404 ==> (r matches Ok(k) && k is None),
        status != 404 && !is_success(status) ==> (r matches Err(e) && e matches Error::Remote(
            es,
            eb,
        ) && es == status && eb@ == body@),
        is_success(status) ==> (r matches Err(e) ==> e is Format),
        status != 404 ==> ((r matches Ok(k) && k is Some) <==> is_success(status) && (parsed_json(
            body@,
        ) matches Some(j) && kernel_info_ok(j))),
        r matches Ok(k) ==> (k matches Some(ki) ==> kernel_info_matches(
            ki,
            parsed_json(body@)->Some_0,
        )),
{
    if status == 404 {
        return Ok(None);
    }
    if !(200 <= status && status < 300) {
        return Err(Error::Remote(status, body.to_owned()));
    }
    match parse_json_text(body) {
        Some(v) => match decode_kernel_info(&v) {
            Ok(k) => Ok(Some(k)),
            Err(e) => Err(e),
        },
        Option::None => Err(Error::Format("malformed JSON".to_owned())),
    }
}

/// Interpret the response to the kernel-creation request: non-success is
/// a remote failure; a success body is the server-assigned kernel
/// information.
pub fn interpret_create_kernel(status: u16, body: &str) -> (r: Result<KernelInfo, Error>)
    ensures
        r is Ok <==> is_success(status) && (parsed_json(body@) matches Some(j) && kernel_info_ok(
            j,
        )),
        r matches Ok(k) ==> kernel_info_matches(k, parsed_json(body@)->Some_0),
        !is_success(status) ==> (r matches Err(e) && e matches Error::Remote(es, eb) && es == status
            && eb@ == body@),
        is_success(status) ==> (r matches Err(e) ==> e is Format),
{
    if !(200 <= status && status < 300) {
        return Err(Error::Remote(status, body.to_owned()));
    }
    match parse_json_text(body) {
        Some(v) => decode_kernel_info(&v),
        Option::None => Err(Error::Format("malformed JSON".to_owned())),
    }
}

/// Interpret the response to a kernel deletion: success or a remote
/// failure wrapping the status.
pub fn interpret_kill_kernel(status: u16, body: &str) -> (r: Result<(), Error>)
    ensures
        r is Ok <==> is_success(status),
        r matches Err(e) ==> e matches Error::Remote(es, eb) && es == status && eb@ == body@,
{
    if 200 <= status && status < 300 {
        Ok(())
    } else {
        Err(Error::Remote(status, body.to_owned()))
    }
}

/// Every element of a kernel array conforms.
pub open spec fn kernels_arr_ok(elems: Seq<JsonSpec>) -> bool {
    forall|i: int| 0 <= i < elems.len() ==> kernel_info_ok(#[trigger] elems[i])
}

/// Interpret the response to the kernel listing: a success body is an
/// array of kernel information, in the server's order.
#[verifier::loop_isolation(false)]
pub fn interpret_list_kernels(status: u16, body: &str) -> (r: Result<Vec<KernelInfo>, Error>)
    ensures
        r is Ok <==> is_success(status) && (parsed_json(body@) matches Some(j) && j matches
            JsonSpec::Arr(a) && kernels_arr_ok(a)),
        r matches Ok(ks) ==> (parsed_json(body@) matches Some(j) && ks@.len() == j->Arr_0.len()
            && forall|i: int|
            0 <= i < ks@.len() ==> kernel_info_matches(#[trigger] ks@[i], j->Arr_0[i])),
        !is_success(status) ==> (r matches Err(e) && e matches Error::Remote(es, eb) && es == status
            && eb@ == body@),
        is_success(status) ==> (r matches Err(e) ==> e is Format),
{
    if !(200 <= status && status < 300) {
        return Err(Error::Remote(status, body.to_owned()));
    }
    match parse_json_text(body) {
        Some(JsonValue::Arr(a)) => {
            let ghost am = arr_model(a@);
            let mut out: Vec<KernelInfo> = Vec::new();
            let mut i: usize = 0;
            while i < a.len()
                invariant
                    0 <= i <= a@.len(),
                    out@.len() == i,
                    forall|j: int| 0 <= j < i ==> kernel_info_ok(#[trigger] am[j]),
                    forall|j: int| 0 <= j < i ==> kernel_info_matches(#[trigger] out@[j], am[j]),
                decreases a@.len() - i,
            {
                proof {
                    assert(am[i as int] == a@[i as int].model());
                }
                let el = match decode_kernel_info(&a[i]) {
                    Ok(k) => k,
                    Err(e) => {
                        proof {
                            let wi = i as int;
                            assert(!kernels_arr_ok(am)) by {
                                if kernels_arr_ok(am) {
                                    assert(kernel_info_ok(am[wi]));
                                    assert(false);
                                }
                            }
                        }
                        return Err(e);
                    },
                };
                out.push(el);
                i += 1;
            }
            Ok(out)
        },
        Some(_) => Err(Error::Format("kernels: expected array".to_owned())),
        Option::None => Err(Error::Format("malformed JSON".to_owned())),
    }
}

/// `p` is the first part of `s`.
pub open spec fn starts_with(s: Seq<char>, p: Seq<char>) -> bool {
    p.len() <= s.len() && s.take(p.len() as int) == p
}

/// The transport endpoint of a REST URL: one prefix replacement turns the
/// secure scheme into the secure transport scheme, and the insecure one
/// into the insecure transport scheme; any other URL is kept as it is.
pub open spec fn transport_url_of(s: Seq<char>) -> Seq<char> {
    if starts_with(s, "https://"@) {
        "wss://"@ + s.skip(8)
    } else if starts_with(s, "http://"@) {
        "ws://"@ + s.skip(7)
    } else {
        s
    }
}

/// The scheme of the derived transport endpoint mirrors the scheme of the
/// REST URL: secure to secure, insecure to insecure.
pub proof fn lemma_transport_scheme(u: Seq<char>)
    ensures
        starts_with(u, "https://"@) ==> starts_with(transport_url_of(u), "wss://"@),
        !starts_with(u, "https://"@) && starts_with(u, "http://"@) ==> starts_with(
            transport_url_of(u),
            "ws://"@,
        ),
{
    reveal_strlit("https://");
    reveal_strlit("http://");
    reveal_strlit("wss://");
    reveal_strlit("ws://");
    if starts_with(u, "https://"@) {
        assert(("wss://"@ + u.skip(8)).take(6) =~= "wss://"@);
    } else if starts_with(u, "http://"@) {
        assert(("ws://"@ + u.skip(7)).take(5) =~= "ws://"@);
    }
}

/// Derive the transport endpoint of a REST URL.
pub fn derive_transport_url(url: &str) -> (r: String)
    ensures
        r@ == transport_url_of(url@),
{
    proof {
        reveal_strlit("https://");
        reveal_strlit("http://");
        reveal_strlit("wss://");
        reveal_strlit("ws://");
    }
    let n = url.unicode_len();
    if n >= 8 {
        let head = url.substring_char(0, 8);
        if crate::json::str_eq(head, "https://") {
            proof {
                assert(url@.take(8) == "https://"@);
            }
            let mut out = "wss://".to_owned();
            out.append(url.substring_char(8, n));
            proof {
                assert(url@.subrange(8, n as int) =~= url@.skip(8));
            }
            return out;
        }
    }
    if n >= 7 {
        let head = url.substring_char(0, 7);
        if crate::json::str_eq(head, "http://") {
            proof {
                assert(url@.take(7) == "http://"@);
                assert(!starts_with(url@, "https://"@)) by {
                    if starts_with(url@, "https://"@) {
                        assert(url@.take(8)[4] == 's');
                        assert(url@.take(7)[4] == ':');
                        assert(url@[4] == 's' && url@[4] == ':');
                    }
                }
            }
            let mut out = "ws://".to_owned();
            out.append(url.substring_char(7, n));
            proof {
                assert(url@.subrange(7, n as int) =~= url@.skip(7));
            }
            return out;
        }
    }
    proof {
        if starts_with(url@, "https://"@) {
            assert(url@.take(8) == "https://"@);
            assert(false);
        }
        if starts_with(url@, "http://"@) {
            assert(url@.take(7) == "http://"@);
            assert(false);
        }
    }
    url.to_owned()
}

/// The transport endpoint of one session: where the channel is opened,
/// and the token presented there.
#[derive(Debug, PartialEq, Eq)]
pub struct KernelChannel {
    /// The transport URL of the session's channel.
    pub url: String,
    /// The token presented when opening the channel.
    pub token: String,
}

/// One active session owned by this process: the client that created it,
/// the server-assigned session id, and the transport endpoint derived
/// from that identity. The application opens the actual channel at
/// `conn()` and drives execution over it.
#[derive(Debug, PartialEq, Eq)]
pub struct RemoteKernel {
    /// The client the session was created through.
    pub client: JupyterClient,
    /// The server-assigned session id.
    pub kernel_id: String,
    /// The transport endpoint of the session.
    pub conn: KernelChannel,
}

/// The path of a session's channel endpoint: `/api/kernels/<id>/channels`.
pub open spec fn channels_path(id: Seq<char>) -> Seq<char> {
    "/api/kernels/"@ + id + "/channels"@
}

impl RemoteKernel {
    /// Continue a session start from the server's answer to the creation
    /// request: read the assigned identity, derive the transport endpoint
    /// from it, and hand back the session handle. Any failure aborts the
    /// whole operation; no partial session is returned.
    pub fn start(client: &JupyterClient, create_status: u16, create_body: &str) -> (r: Result<
        RemoteKernel,
        Error,
    >)
        ensures
            r is Ok <==> (is_success(create_status) && (parsed_json(create_body@) matches Some(j)
                && kernel_info_ok(j)) && joined_url(
                client.server_url@,
                channels_path(req_str_of(parsed_json(create_body@)->Some_0->Obj_0, "id"@)),
            ) is Some),
            r matches Ok(k) ==> {
                let id = req_str_of(parsed_json(create_body@)->Some_0->Obj_0, "id"@);
                k.kernel_id@ == id && k.client.server_url@ == client.server_url@
                    && k.client.token@ == client.token@ && k.conn.token@ == client.token@
                    && k.conn.url@ == transport_url_of(
                    joined_url(client.server_url@, channels_path(id))->Some_0,
                )
            },
            !is_success(create_status) ==> (r matches Err(e) && e matches Error::Remote(es, eb)
                && es == create_status && eb@ == create_body@),
    {
        let info = match interpret_create_kernel(create_status, create_body) {
            Ok(k) => k,
            Err(e) => {
                return Err(e);
            },
        };
        let mut path = "/api/kernels/".to_owned();
        path.append(info.id.as_str());
        path.append("/channels");
        proof {
            assert(path@ =~= channels_path(info.id@));
        }
        let joined = match join_url(client.server_url.as_str(), path.as_str()) {
            Some(u) => u,
            Option::None => {
                return Err(Error::Config("server url: cannot be joined".to_owned()));
            },
        };
        let ws_url = derive_transport_url(joined.as_str());
        let conn = KernelChannel { url: ws_url, token: client.token.clone() };
        Ok(RemoteKernel { client: client.duplicate(), kernel_id: info.id, conn })
    }

    /// The session id.
    pub fn id(&self) -> (r: &str)
        ensures
            r@ == self.kernel_id@,
    {
        self.kernel_id.as_str()
    }

    /// The transport endpoint of the session, stable for its lifetime.
    pub fn conn(&self) -> (r: &KernelChannel)
        ensures
            r.url@ == self.conn.url@,
            r.token@ == self.conn.token@,
    {
        &self.conn
    }

    /// Consume the session and build the request that deletes it on the
    /// server; a repeated kill of an already-dead session may fail there.
    pub fn kill(self) -> (r: Result<HttpRequest, Error>)
        ensures
            r is Ok <==> joined_url(
                self.client.server_url@,
                "/api/kernels/"@ + self.kernel_id@,
            ) is Some,
            r matches Ok(q) ==> q.method == HttpMethod::Delete && q.url@ == joined_url(
                self.client.server_url@,
                "/api/kernels/"@ + self.kernel_id@,
            )->Some_0 && q.auth@ == self.client.auth_spec() && q.body is None,
            r matches Err(e) ==> e is Config,
    {
        self.client.kill_kernel_request(self.kernel_id.as_str())
    }
}

} // verus!
