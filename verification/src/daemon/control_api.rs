//! The daemon's control API: requests, responses and the status document,
//! for a server bound to localhost only.
use vstd::prelude::*;

use crate::daemon::DaemonStatus;
use crate::ids::{uuid_hyphenated, uuid_string};
use crate::text::{
    is_ws, law_trim_shape, chars_eq_str, decimal, owned, push_chars, push_decimal, push_str, starts_with_seq, str_starts_with, string_from_chars,
    trim_seq, trim_str,
};

verus! {

/// Requests of the control API.
#[derive(Debug, Clone, PartialEq)]
pub enum ApiRequest {
    GetStatus,
    GetModels,
    LoadModel { model_id: String },
    UnloadModel { model_id: String },
    Shutdown,
    GetConfig,
    UpdateConfig { json: String },
}

/// A response: HTTP status code and body.
#[derive(Debug, Clone)]
pub struct ApiResponse {
    pub status_code: u16,
    pub body: String,
}

impl ApiResponse {
    /// A 200 response with the given body.
    pub fn ok(body: &str) -> (r: Self)
        ensures
            r.status_code == 200,
            r.body@ == body@,
    {
        ApiResponse { status_code: 200, body: owned(body) }
    }

    /// An error response: the code and `{"error":"<message>"}`.
    pub fn error(code: u16, message: &str) -> (r: Self)
        ensures
            r.status_code == code,
            r.body@ == "{\"error\":\""@ + message@ + "\"}"@,
    {
        let mut out: Vec<char> = Vec::new();
        push_str(&mut out, "{\"error\":\"");
        push_str(&mut out, message);
        push_str(&mut out, "\"}");
        ApiResponse { status_code: code, body: string_from_chars(&out) }
    }
}

/// The request a method and path ask for, with the body where one is read.
pub open spec fn request_of(method: Seq<char>, path: Seq<char>, body: Option<Seq<char>>) -> Option<ApiRequestView> {
    let b = match body {
        Some(x) => x,
        None => Seq::empty(),
    };
    if method == "GET"@ && path == "/status"@ {
        Some(ApiRequestView::GetStatus)
    } else if method == "GET"@ && path == "/models"@ {
        Some(ApiRequestView::GetModels)
    } else if method == "POST"@ && path == "/load"@ {
        Some(ApiRequestView::LoadModel(trim_seq(b)))
    } else if method == "POST"@ && path == "/unload"@ {
        Some(ApiRequestView::UnloadModel(trim_seq(b)))
    } else if method == "POST"@ && path == "/shutdown"@ {
        Some(ApiRequestView::Shutdown)
    } else if method == "GET"@ && path == "/config"@ {
        Some(ApiRequestView::GetConfig)
    } else if method == "POST"@ && path == "/config"@ {
        Some(
            ApiRequestView::UpdateConfig(
                match body {
                    Some(x) => x,
                    None => "{}"@,
                },
            ),
        )
    } else {
        None
    }
}

/// Law: the model of a load request is its body without surrounding
/// whitespace: a piece of the body between a leading and a trailing run of
/// whitespace, neither starting nor ending with whitespace, and the same
/// model an unload request with that body names.
pub proof fn law_load_request_model_id(body: Seq<char>)
    ensures
        request_of("POST"@, "/load"@, Some(body)) matches Some(ApiRequestView::LoadModel(m)) && {
            &&& exists|i: int, j: int|
                0 <= i <= j <= body.len() && m == body.subrange(i, j) && (forall|k: int|
                    0 <= k < i ==> is_ws(#[trigger] body[k])) && (forall|k: int|
                    j <= k < body.len() ==> is_ws(#[trigger] body[k]))
            &&& m.len() > 0 ==> !is_ws(m[0]) && !is_ws(m.last())
            &&& request_of("POST"@, "/unload"@, Some(body)) == Some(ApiRequestView::UnloadModel(m))
        },
{
    reveal_strlit("POST");
    reveal_strlit("GET");
    reveal_strlit("/load");
    reveal_strlit("/unload");
    assert("POST"@.len() != "GET"@.len());
    assert("/unload"@.len() != "/load"@.len());
    law_trim_shape(body);
}

/// A request as plain values.
pub enum ApiRequestView {
    GetStatus,
    GetModels,
    LoadModel(Seq<char>),
    UnloadModel(Seq<char>),
    Shutdown,
    GetConfig,
    UpdateConfig(Seq<char>),
}

/// The plain values of a request.
pub open spec fn request_view(r: ApiRequest) -> ApiRequestView {
    match r {
        ApiRequest::GetStatus => ApiRequestView::GetStatus,
        ApiRequest::GetModels => ApiRequestView::GetModels,
        ApiRequest::LoadModel { model_id } => ApiRequestView::LoadModel(model_id@),
        ApiRequest::UnloadModel { model_id } => ApiRequestView::UnloadModel(model_id@),
        ApiRequest::Shutdown => ApiRequestView::Shutdown,
        ApiRequest::GetConfig => ApiRequestView::GetConfig,
        ApiRequest::UpdateConfig { json } => ApiRequestView::UpdateConfig(json@),
    }
}

/// `true` or `false`.
pub open spec fn bool_text(b: bool) -> Seq<char> {
    if b {
        "true"@
    } else {
        "false"@
    }
}

/// The strings, each in double quotes, separated by commas.
pub open spec fn quoted_list(v: Seq<Seq<char>>) -> Seq<char>
    decreases v.len(),
{
    if v.len() == 0 {
        Seq::empty()
    } else if v.len() == 1 {
        "\""@ + v[0] + "\""@
    } else {
        quoted_list(v.drop_last()) + ","@ + "\""@ + v.last() + "\""@
    }
}

/// The status document.
pub open spec fn status_json(s: DaemonStatus) -> Seq<char> {
    "{\"node_id\":\""@ + uuid_hyphenated(s.node_id) + "\",\"running\":"@ + bool_text(s.running) + ",\"uptime_secs\":"@
        + decimal(s.uptime_secs as nat) + ",\"models_loaded\":["@ + quoted_list(
        s.models_loaded@.map_values(|m: String| m@),
    ) + "],\"low_power\":"@ + bool_text(s.low_power) + ",\"listen_port\":"@ + decimal(s.listen_port as nat) + "}"@
}

/// Whether an address starts as a localhost address does.
pub open spec fn is_localhost_addr(addr: Seq<char>) -> bool {
    starts_with_seq(addr, "127.0.0.1"@) || starts_with_seq(addr, "localhost"@) || starts_with_seq(addr, "::1"@)
}

/// The control API server.
pub struct ControlApi {
    port: u16,
    bind_address: String,
    request_count: u64,
}

impl ControlApi {
    /// The port.
    pub closed spec fn port_view(&self) -> u16 {
        self.port
    }

    /// The address the server binds to.
    pub closed spec fn bind_view(&self) -> Seq<char> {
        self.bind_address@
    }

    /// Requests recorded so far.
    pub closed spec fn count_view(&self) -> u64 {
        self.request_count
    }

    /// A server on `127.0.0.1:<port>` with no request recorded.
    pub fn new(port: u16) -> (a: Self)
        ensures
            a.port_view() == port,
            a.bind_view() == "127.0.0.1:"@ + decimal(port as nat),
            a.count_view() == 0,
    {
        let mut out: Vec<char> = Vec::new();
        push_str(&mut out, "127.0.0.1:");
        push_decimal(&mut out, port as u64);
        ControlApi { port, bind_address: string_from_chars(&out), request_count: 0 }
    }

    /// The address the server binds to.
    pub fn bind_address(&self) -> (s: &str)
        ensures
            s@ == self.bind_view(),
    {
        self.bind_address.as_str()
    }

    /// Whether a peer address is localhost (`127.0.0.1`, `localhost` or
    /// `::1` at its start).
    pub fn is_localhost(addr: &str) -> (b: bool)
        ensures
            b == is_localhost_addr(addr@),
    {
        str_starts_with(addr, "127.0.0.1") || str_starts_with(addr, "localhost") || str_starts_with(addr, "::1")
    }

    /// The request a method and path ask for; `None` for any other route.
    /// Loading and unloading read the trimmed body as the model ID; a
    /// configuration update takes the body as is, `{}` without one.
    pub fn parse_request(method: &str, path: &str, body: Option<&str>) -> (r: Option<ApiRequest>)
        ensures
            match request_of(method@, path@, opt_str_view(body)) {
                Some(v) => r matches Some(q) && request_view(q) == v,
                None => r is None,
            },
            method@ == "POST"@ && path@ == "/load"@ ==> (r matches Some(ApiRequest::LoadModel { model_id })
                && model_id@ == trim_seq(
                match body {
                    Some(b) => b@,
                    None => Seq::<char>::empty(),
                },
            )),
    {
        proof {
            reveal_strlit("POST");
            reveal_strlit("GET");
            assert("POST"@.len() != "GET"@.len());
        }
        let m = crate::text::chars_of(method);
        let p = crate::text::chars_of(path);
        let b: Vec<char> = match body {
            Some(x) => crate::text::chars_of(x),
            None => Vec::new(),
        };
        proof {
            reveal_strlit("GET");
            reveal_strlit("POST");
            reveal_strlit("/status");
            reveal_strlit("/models");
            reveal_strlit("/load");
            reveal_strlit("/unload");
            reveal_strlit("/shutdown");
            reveal_strlit("/config");
        }
        let get = chars_eq_str(&m, "GET");
        let post = chars_eq_str(&m, "POST");
        if get && chars_eq_str(&p, "/status") {
            Some(ApiRequest::GetStatus)
        } else if get && chars_eq_str(&p, "/models") {
            Some(ApiRequest::GetModels)
        } else if post && chars_eq_str(&p, "/load") {
            let t = crate::text::trim_chars(&b);
            Some(ApiRequest::LoadModel { model_id: string_from_chars(&t) })
        } else if post && chars_eq_str(&p, "/unload") {
            let t = crate::text::trim_chars(&b);
            Some(ApiRequest::UnloadModel { model_id: string_from_chars(&t) })
        } else if post && chars_eq_str(&p, "/shutdown") {
            Some(ApiRequest::Shutdown)
        } else if get && chars_eq_str(&p, "/config") {
            Some(ApiRequest::GetConfig)
        } else if post && chars_eq_str(&p, "/config") {
            let json = match body {
                Some(x) => owned(x),
                None => owned("{}"),
            };
            Some(ApiRequest::UpdateConfig { json })
        } else {
            None
        }
    }

    /// The status as a JSON document.
    pub fn format_status(status: &DaemonStatus) -> (s: String)
        ensures
            s@ == status_json(*status),
    {
        let mut out: Vec<char> = Vec::new();
        push_str(&mut out, "{\"node_id\":\"");
        push_str(&mut out, uuid_string(status.node_id).as_str());
        push_str(&mut out, "\",\"running\":");
        push_str(&mut out, if status.running { "true" } else { "false" });
        push_str(&mut out, ",\"uptime_secs\":");
        push_decimal(&mut out, status.uptime_secs);
        push_str(&mut out, ",\"models_loaded\":[");
        let ghost before = out@;
        let models = &status.models_loaded;
        let ghost mv = models@.map_values(|m: String| m@);
        let mut i: usize = 0;
        while i < models.len()
            invariant
                i <= models@.len(),
                mv == models@.map_values(|m: String| m@),
                out@ == before + quoted_list(mv.take(i as int)),
            decreases models.len() - i,
        {
            assert(mv.take(i + 1).drop_last() =~= mv.take(i as int));
            assert(mv.take(i + 1).last() == models@[i as int]@);
            if i > 0 {
                push_str(&mut out, ",");
            }
            push_str(&mut out, "\"");
            push_str(&mut out, models[i].as_str());
            push_str(&mut out, "\"");
            proof {
                if i == 0 {
                    assert(mv.take(1)[0] == models@[0]@);
                    assert(quoted_list(mv.take(0)) =~= Seq::<char>::empty());
                }
            }
            i = i + 1;
        }
        assert(mv.take(i as int) =~= mv);
        push_str(&mut out, "],\"low_power\":");
        push_str(&mut out, if status.low_power { "true" } else { "false" });
        push_str(&mut out, ",\"listen_port\":");
        push_decimal(&mut out, status.listen_port as u64);
        push_str(&mut out, "}");
        string_from_chars(&out)
    }

    /// Counts one more request.
    pub fn record_request(&mut self)
        requires
            old(self).count_view() < u64::MAX,
        ensures
            final(self).count_view() == old(self).count_view() + 1,
            final(self).port_view() == old(self).port_view(),
            final(self).bind_view() == old(self).bind_view(),
    {
        self.request_count = self.request_count + 1;
    }

    /// Requests recorded so far.
    pub fn request_count(&self) -> (n: u64)
        ensures
            n == self.count_view(),
    {
        self.request_count
    }
}

/// The characters of an optional string slice.
pub open spec fn opt_str_view(o: Option<&str>) -> Option<Seq<char>> {
    match o {
        Some(s) => Some(s@),
        None => None,
    }
}

} // verus!
