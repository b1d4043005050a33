//! Fetch-and-redirect engine decisions: origin-connection planning, the
//! outgoing request's headers, dispatch on the origin's response header,
//! redirect bookkeeping, dual-sink liveness tracking, and the conclusion of
//! a transfer. All I/O is the caller's; every decision is made here.
use crate::flights::FlightState;
use crate::httptime;
use crate::uri::{spec_parse_u64, str_eq_chars, Uri};
use vstd::prelude::*;

verus! {

/// Fate of the client connection once a request has been answered.
#[derive(Debug, Clone, Copy, PartialEq, Eq, Structural)]
pub enum ConnectionReturn {
    KeepAlive,
    Close,
}

/// Why no origin connection could be planned for a target.
#[derive(Debug, Clone, Copy, PartialEq, Eq, Structural)]
pub enum ConnectError {
    NoHost,
    UnsupportedScheme,
    Tls,
    Tcp,
}

/// The transport to establish toward the origin: plain TCP, or TLS with the
/// host as the server-name identity.
pub enum ConnectPlan {
    Plain { authority: String },
    Tls { authority: String, server_name: String },
}

/// Plan the origin connection for a target: where to connect and whether to
/// wrap the stream in TLS. A target without host and port has no usable
/// origin; a scheme other than the plain or the secure one is refused.
pub fn connect_plan(uri: &Uri) -> (r: Result<ConnectPlan, ConnectError>)
    ensures
        uri.spec_host_and_port() is None <==> r == Err::<ConnectPlan, ConnectError>(
            ConnectError::NoHost,
        ),
        (uri.spec_host_and_port() is Some && uri.scheme.deep_view() == Some("https://"@)) ==> (
        r matches Ok(ConnectPlan::Tls { authority, server_name }) && authority@
            == uri.spec_host_and_port()->Some_0 && Some(server_name@) == uri.host.deep_view()),
        (uri.spec_host_and_port() is Some && uri.scheme.deep_view() == Some("http://"@)) ==> (
        r matches Ok(ConnectPlan::Plain { authority }) && authority@
            == uri.spec_host_and_port()->Some_0),
        uri.spec_host_and_port() is Some && uri.scheme.deep_view() != Some("https://"@)
            && uri.scheme.deep_view() != Some("http://"@) ==> r == Err::<ConnectPlan, ConnectError>(
            ConnectError::UnsupportedScheme,
        ),
{
    let authority = match uri.host_and_port() {
        None => {
            return Err(ConnectError::NoHost);
        },
        Some(a) => a,
    };
    proof {
        reveal_strlit("http://");
        reveal_strlit("https://");
        assert("http://"@.len() == 7);
        assert("https://"@.len() == 8);
    }
    match &uri.scheme {
        Some(sch) => {
            if str_eq_chars(sch.as_str(), "https://") {
                match &uri.host {
                    Some(h) => Ok(ConnectPlan::Tls { authority, server_name: h.clone() }),
                    None => {
                        proof {
                            assert(false);
                        }
                        Err(ConnectError::NoHost)
                    },
                }
            } else if str_eq_chars(sch.as_str(), "http://") {
                Ok(ConnectPlan::Plain { authority })
            } else {
                Err(ConnectError::UnsupportedScheme)
            }
        },
        None => Err(ConnectError::UnsupportedScheme),
    }
}

/// ASCII lowering of one character; anything but an ASCII capital is kept.
pub open spec fn lower_char(c: char) -> char {
    if 'A' <= c && c <= 'Z' {
        ((c as u8) + 32) as char
    } else {
        c
    }
}

/// Case-blind equality of two header tokens, ASCII-wise.
pub open spec fn eq_ignore_case(a: Seq<char>, b: Seq<char>) -> bool {
    a.len() == b.len() && forall|i: int| 0 <= i < a.len() ==> lower_char(#[trigger] a[i])
        == lower_char(b[i])
}

/// ASCII lowering of one character.
fn char_to_lower(c: char) -> (r: char)
    ensures
        r == lower_char(c),
{
    if 'A' <= c && c <= 'Z' {
        ((c as u8) + 32) as char
    } else {
        c
    }
}

/// Case-blind comparison of two header tokens.
pub fn str_eq_ignore_case(a: &str, b: &str) -> (r: bool)
    ensures
        r == eq_ignore_case(a@, b@),
{
    let na = a.unicode_len();
    let nb = b.unicode_len();
    if na != nb {
        return false;
    }
    let mut i: usize = 0;
    while i < na
        invariant
            a@.len() == na,
            b@.len() == nb,
            na == nb,
            i <= na,
            forall|j: int| 0 <= j < i ==> lower_char(#[trigger] a@[j]) == lower_char(b@[j]),
        decreases na - i,
    {
        if char_to_lower(a.get_char(i)) != char_to_lower(b.get_char(i)) {
            return false;
        }
        i = i + 1;
    }
    true
}

/// Whether a response with this `Cache-Control` value may be persisted to
/// disk: `no-store` and `private` forbid it, anything else (or no header)
/// allows it.
pub open spec fn spec_cache_policy(cc: Option<Seq<char>>) -> bool {
    match cc {
        None => true,
        Some(v) => !(eq_ignore_case(v, "no-store"@) || eq_ignore_case(v, "private"@)),
    }
}

/// Decide the cache policy from the origin's `Cache-Control` header: the
/// first flag says whether to persist to disk, the second whether to stream
/// to the client, which a cache policy never forbids.
pub fn cache_policy(cache_control: &Option<String>) -> (r: (bool, bool))
    ensures
        r.0 == spec_cache_policy(cache_control.deep_view()),
        r.1 == true,
{
    proof {
        reveal_strlit("no-store");
        reveal_strlit("private");
    }
    match cache_control {
        None => (true, true),
        Some(v) => {
            let forbid = str_eq_ignore_case(v.as_str(), "no-store") || str_eq_ignore_case(
                v.as_str(),
                "private",
            );
            (!forbid, true)
        },
    }
}

/// Why a response's body framing could not be determined.
#[derive(Debug, Clone, Copy, PartialEq, Eq, Structural)]
pub enum FramingError {
    /// A transfer encoding other than `chunked` was announced.
    NotChunked,
    /// Neither a transfer encoding nor a content length was announced.
    MissingLength,
    /// The announced content length is not a number.
    BadLength,
}

/// The framing a response announces: chunked when `Transfer-Encoding` says
/// `chunked` (case-blind), else exactly the numeric `Content-Length`.
pub open spec fn spec_plan_framing(te: Option<Seq<char>>, cl: Option<Seq<char>>) -> Result<
    FlightState,
    FramingError,
> {
    match te {
        Some(v) => if eq_ignore_case(v, "chunked"@) {
            Ok(FlightState::Chunks)
        } else {
            Err(FramingError::NotChunked)
        },
        None => match cl {
            None => Err(FramingError::MissingLength),
            Some(s) => match spec_parse_u64(s) {
                Some(n) => Ok(FlightState::Length(n)),
                None => Err(FramingError::BadLength),
            },
        },
    }
}

/// Determine how the response body is framed from the origin's
/// `Transfer-Encoding` and `Content-Length` headers.
pub fn plan_framing(transfer_encoding: &Option<String>, content_length: &Option<String>) -> (r:
    Result<FlightState, FramingError>)
    ensures
        r == spec_plan_framing(transfer_encoding.deep_view(), content_length.deep_view()),
{
    proof {
        reveal_strlit("chunked");
    }
    match transfer_encoding {
        Some(v) => {
            if str_eq_ignore_case(v.as_str(), "chunked") {
                Ok(FlightState::Chunks)
            } else {
                Err(FramingError::NotChunked)
            }
        },
        None => match content_length {
            None => Err(FramingError::MissingLength),
            Some(s) => match crate::uri::parse_u64_digits(s.as_str()) {
                Some(n) => Ok(FlightState::Length(n)),
                None => Err(FramingError::BadLength),
            },
        },
    }
}

/// A hexadecimal digit, either case.
pub open spec fn is_hex_digit(c: char) -> bool {
    ||| ('0' <= c && c <= '9')
    ||| ('a' <= c && c <= 'f')
    ||| ('A' <= c && c <= 'F')
}

pub open spec fn hex_val(c: char) -> int {
    if '0' <= c && c <= '9' {
        c as int - '0' as int
    } else if 'a' <= c && c <= 'f' {
        c as int - 'a' as int + 10
    } else if 'A' <= c && c <= 'F' {
        c as int - 'A' as int + 10
    } else {
        0
    }
}

pub open spec fn all_hex_digits(s: Seq<char>) -> bool {
    forall|i: int| 0 <= i < s.len() ==> is_hex_digit(#[trigger] s[i])
}

/// Value of a hexadecimal digit string, most significant digit first.
pub open spec fn hex_digits_val(s: Seq<char>) -> int
    decreases s.len(),
{
    if s.len() == 0 {
        0
    } else {
        hex_digits_val(s.drop_last()) * 16 + hex_val(s.last())
    }
}

/// What a chunk-size token means: a non-empty hexadecimal string whose
/// value fits in sixty-four bits, else nothing.
pub open spec fn spec_parse_hex_u64(s: Seq<char>) -> Option<u64> {
    if s.len() > 0 && all_hex_digits(s) && hex_digits_val(s) <= u64::MAX {
        Some(hex_digits_val(s) as u64)
    } else {
        None
    }
}

proof fn lemma_hex_digits_val_nonneg(s: Seq<char>)
    ensures
        hex_digits_val(s) >= 0,
    decreases s.len(),
{
    if s.len() > 0 {
        lemma_hex_digits_val_nonneg(s.drop_last());
    }
}

/// A prefix of a hexadecimal string never exceeds the whole string's value.
proof fn lemma_hex_digits_val_prefix(s: Seq<char>, i: int)
    requires
        0 <= i <= s.len(),
    ensures
        hex_digits_val(s.take(i)) <= hex_digits_val(s),
    decreases s.len() - i,
{
    if i < s.len() {
        lemma_hex_digits_val_prefix(s, i + 1);
        assert(s.take(i + 1).drop_last() =~= s.take(i));
        assert(s.take(i + 1).last() == s[i]);
        lemma_hex_digits_val_nonneg(s.take(i));
    } else {
        assert(s.take(i) =~= s);
    }
}

/// Hexadecimal parse of a chunk-size token.
pub fn parse_hex_u64(s: &str) -> (r: Option<u64>)
    ensures
        r == spec_parse_hex_u64(s@),
{
    let n = s.unicode_len();
    if n == 0 {
        return None;
    }
    let mut i: usize = 0;
    let mut val: u128 = 0;
    while i < n
        invariant
            s@.len() == n,
            i <= n,
            all_hex_digits(s@.take(i as int)),
            val == hex_digits_val(s@.take(i as int)),
            val <= u64::MAX,
        decreases n - i,
    {
        let c = s.get_char(i);
        let d: u128 = if '0' <= c && c <= '9' {
            (c as u128) - ('0' as u128)
        } else if 'a' <= c && c <= 'f' {
            (c as u128) - ('a' as u128) + 10
        } else if 'A' <= c && c <= 'F' {
            (c as u128) - ('A' as u128) + 10
        } else {
            assert(!all_hex_digits(s@));
            return None;
        };
        let next: u128 = val * 16 + d;
        proof {
            assert(s@.take(i + 1).drop_last() =~= s@.take(i as int));
            assert(s@.take(i + 1).last() == s@[i as int]);
        }
        if next > u64::MAX as u128 {
            proof {
                if all_hex_digits(s@) {
                    lemma_hex_digits_val_prefix(s@, i + 1);
                }
            }
            return None;
        }
        val = next;
        i = i + 1;
    }
    proof {
        assert(s@.take(n as int) =~= s@);
    }
    Some(val as u64)
}

/// The most redirect hops one request may follow.
pub const MAX_REDIRECTS: usize = 5;

/// Why a redirect was refused.
#[derive(Debug, Clone, Copy, PartialEq, Eq, Structural)]
pub enum RedirectError {
    /// The hop bound was reached.
    TooManyHops,
    /// The new target was already visited.
    Cycle,
}

/// The visited history already holds this target.
pub open spec fn history_contains(h: Seq<Seq<char>>, loc: Seq<char>) -> bool {
    exists|i: int| 0 <= i < h.len() && h[i] == loc
}

/// What one proposed redirect does to the visited history: refused past the
/// hop bound, refused at once when the target was already visited, else the
/// target is appended and followed.
pub open spec fn spec_note_redirect(h: Seq<Seq<char>>, loc: Seq<char>) -> Result<
    Seq<Seq<char>>,
    RedirectError,
> {
    if h.len() > MAX_REDIRECTS {
        Err(RedirectError::TooManyHops)
    } else if history_contains(h, loc) {
        Err(RedirectError::Cycle)
    } else {
        Ok(h.push(loc))
    }
}

/// Record one proposed redirect target against the ordered history of
/// visited targets, which starts with the original request.
pub fn note_redirect(history: &mut Vec<String>, location: &str) -> (r: Result<(), RedirectError>)
    ensures
        match r {
            Ok(_) => spec_note_redirect(old(history).deep_view(), location@) == Ok::<
                _,
                RedirectError,
            >(final(history).deep_view()),
            Err(e) => spec_note_redirect(old(history).deep_view(), location@) == Err::<
                Seq<Seq<char>>,
                _,
            >(e) && final(history)@ == old(history)@,
        },
{
    if history.len() > MAX_REDIRECTS {
        return Err(RedirectError::TooManyHops);
    }
    let n = history.len();
    let mut i: usize = 0;
    while i < n
        invariant
            history@ == old(history)@,
            n == history@.len(),
            n <= MAX_REDIRECTS,
            i <= n,
            forall|j: int| 0 <= j < i ==> history.deep_view()[j] != location@,
        decreases n - i,
    {
        if str_eq_chars(history[i].as_str(), location) {
            proof {
                assert(old(history).deep_view()[i as int] == location@);
                assert(history_contains(old(history).deep_view(), location@));
            }
            return Err(RedirectError::Cycle);
        }
        i = i + 1;
    }
    let owned: String = location.to_owned();
    history.push(owned);
    proof {
        assert(history.deep_view() =~= old(history).deep_view().push(location@));
    }
    Ok(())
}

/// Redirects accepted in turn from a history, each proposed target handled
/// by the bookkeeping above, stopping at the first refusal.
pub open spec fn spec_accepted_hops(h: Seq<Seq<char>>, locs: Seq<Seq<char>>) -> int
    decreases locs.len(),
{
    if locs.len() == 0 {
        0
    } else {
        match spec_note_redirect(h, locs[0]) {
            Ok(h2) => 1 + spec_accepted_hops(h2, locs.drop_first()),
            Err(_) => 0,
        }
    }
}

/// Redirect loop bound: however many targets an origin proposes, a request
/// whose history began with its original target alone follows at most five
/// hops, so the engine always terminates.
pub proof fn lemma_redirect_hops_bounded(h: Seq<Seq<char>>, locs: Seq<Seq<char>>)
    requires
        h.len() >= 1,
    ensures
        spec_accepted_hops(h, locs) <= if h.len() > MAX_REDIRECTS {
            0
        } else {
            MAX_REDIRECTS + 1 - h.len()
        },
    decreases locs.len(),
{
    if locs.len() > 0 {
        match spec_note_redirect(h, locs[0]) {
            Ok(h2) => {
                lemma_redirect_hops_bounded(h2, locs.drop_first());
            },
            Err(_) => {},
        }
    }
}

/// With a fresh target proposed at every hop, the engine follows exactly
/// as many redirects as the hop bound leaves and then refuses: six fresh
/// proposals after the original request yield exactly five accepted hops.
pub proof fn lemma_redirect_accepts_exactly_the_bound(h: Seq<Seq<char>>, locs: Seq<Seq<char>>)
    requires
        1 <= h.len() <= MAX_REDIRECTS + 1,
        locs.len() + h.len() >= MAX_REDIRECTS + 2,
        forall|i: int, j: int| 0 <= i < j < locs.len() ==> locs[i] != locs[j],
        forall|i: int| 0 <= i < locs.len() ==> !history_contains(h, #[trigger] locs[i]),
    ensures
        spec_accepted_hops(h, locs) == MAX_REDIRECTS + 1 - h.len(),
    decreases locs.len(),
{
    assert(locs.len() >= 1);
    if h.len() > MAX_REDIRECTS {
        assert(spec_note_redirect(h, locs[0]) == Err::<Seq<Seq<char>>, _>(
            RedirectError::TooManyHops,
        ));
    } else {
        assert(!history_contains(h, locs[0]));
        let h2 = h.push(locs[0]);
        let rest = locs.drop_first();
        assert forall|i: int| 0 <= i < rest.len() implies !history_contains(
            h2,
            #[trigger] rest[i],
        ) by {
            assert(rest[i] == locs[i + 1]);
            assert forall|j: int| 0 <= j < h2.len() implies h2[j] != locs[i + 1] by {
                if j < h.len() {
                    assert(h2[j] == h[j]);
                    assert(!history_contains(h, locs[i + 1]));
                } else {
                    assert(h2[j] == locs[0]);
                }
            }
        }
        assert forall|i: int, j: int| 0 <= i < j < rest.len() implies rest[i] != rest[j] by {
            assert(rest[i] == locs[i + 1]);
            assert(rest[j] == locs[j + 1]);
        }
        lemma_redirect_accepts_exactly_the_bound(h2, rest);
    }
}

/// Redirect cycle: a proposed target that was already visited is rejected
/// at once, never followed again.
pub proof fn lemma_redirect_cycle_rejected(h: Seq<Seq<char>>, loc: Seq<char>)
    requires
        h.len() <= MAX_REDIRECTS,
        history_contains(h, loc),
    ensures
        spec_note_redirect(h, loc) == Err::<Seq<Seq<char>>, _>(RedirectError::Cycle),
{
}

/// A status code that redirects the request to another target.
pub open spec fn is_redirect_code(code: u16) -> bool {
    code == 301 || code == 302 || code == 303 || code == 307 || code == 308
}

/// What to do with an origin response, read off its header.
pub enum ResponseDirective {
    /// A success: stream the body with this framing, persisting a copy to
    /// disk only where the cache policy allows it.
    Transfer { framing: FlightState, persist: bool },
    /// A redirect: reconnect toward this target and resend.
    FollowRedirect { location: String },
    /// The response cannot be handled; reply to the client with this status.
    Reject { status: u16 },
    /// Any other status: forward the origin's header verbatim.
    PassThrough,
}

/// Dispatch on an origin response header. A success is streamed with the
/// framing its headers announce; a redirect needs a `Location` header; an
/// unusable header is answered with the proper error status; anything else
/// passes through.
pub fn dispatch_response(
    code: u16,
    location: &Option<String>,
    cache_control: &Option<String>,
    transfer_encoding: &Option<String>,
    content_length: &Option<String>,
) -> (r: ResponseDirective)
    ensures
        code == 200 ==> match spec_plan_framing(
            transfer_encoding.deep_view(),
            content_length.deep_view(),
        ) {
            Ok(f) => r matches ResponseDirective::Transfer { framing, persist } && framing == f
                && persist == spec_cache_policy(cache_control.deep_view()),
            Err(e) => r matches ResponseDirective::Reject { status } && status == (
            if e == FramingError::MissingLength {
                500u16
            } else {
                400u16
            }),
        },
        (code != 200 && is_redirect_code(code)) ==> match location {
            Some(l) => r matches ResponseDirective::FollowRedirect { location: t } && t@ == l@,
            None => r matches ResponseDirective::Reject { status } && status == 400u16,
        },
        (code != 200 && !is_redirect_code(code)) ==> r is PassThrough,
{
    if code == 200 {
        match plan_framing(transfer_encoding, content_length) {
            Ok(framing) => {
                let (persist, _stream) = cache_policy(cache_control);
                ResponseDirective::Transfer { framing, persist }
            },
            Err(FramingError::MissingLength) => ResponseDirective::Reject { status: 500 },
            Err(_) => ResponseDirective::Reject { status: 400 },
        }
    } else if code == 301 || code == 302 || code == 303 || code == 307 || code == 308 {
        match location {
            Some(l) => ResponseDirective::FollowRedirect { location: l.clone() },
            None => ResponseDirective::Reject { status: 400 },
        }
    } else {
        ResponseDirective::PassThrough
    }
}

/// A header survives into the outgoing request: `Range` is stripped, since
/// a cached copy is always fetched from byte zero, and `Host` is recomputed
/// for the origin.
pub open spec fn spec_keep_header(k: Seq<char>) -> bool {
    !eq_ignore_case(k, "range"@) && !eq_ignore_case(k, "host"@)
}

/// The client's headers that survive into the outgoing request, in order.
pub open spec fn spec_kept_headers(h: Seq<(Seq<char>, Seq<char>)>) -> Seq<(Seq<char>, Seq<char>)>
    decreases h.len(),
{
    if h.len() == 0 {
        Seq::empty()
    } else {
        let rest = spec_kept_headers(h.drop_last());
        if spec_keep_header(h.last().0) {
            rest.push(h.last())
        } else {
            rest
        }
    }
}

/// Build the outgoing request's headers from the client's: every header is
/// copied in order, except that `Range` is stripped and `Host` is set to the
/// origin's address, appended last.
pub fn build_fetch_headers(headers: &Vec<(String, String)>, host_and_port: &str) -> (r: Vec<
    (String, String),
>)
    ensures
        r.deep_view() == spec_kept_headers(headers.deep_view()).push(("Host"@, host_and_port@)),
{
    proof {
        reveal_strlit("range");
        reveal_strlit("host");
    }
    let n = headers.len();
    let mut out: Vec<(String, String)> = Vec::new();
    let mut i: usize = 0;
    while i < n
        invariant
            n == headers@.len(),
            i <= n,
            out.deep_view() == spec_kept_headers(headers.deep_view().take(i as int)),
        decreases n - i,
    {
        proof {
            assert(headers.deep_view().take(i + 1).drop_last() =~= headers.deep_view().take(
                i as int,
            ));
            assert(headers.deep_view().take(i + 1).last() == headers.deep_view()[i as int]);
        }
        let keep = !str_eq_ignore_case(headers[i].0.as_str(), "range") && !str_eq_ignore_case(
            headers[i].0.as_str(),
            "host",
        );
        if keep {
            out.push((headers[i].0.clone(), headers[i].1.clone()));
            proof {
                assert(out.deep_view() =~= spec_kept_headers(headers.deep_view().take(i as int)).push(
                    headers.deep_view()[i as int],
                ));
            }
        }
        i = i + 1;
    }
    proof {
        assert(headers.deep_view().take(n as int) =~= headers.deep_view());
    }
    let host_key: String = "Host".to_owned();
    let host_val: String = host_and_port.to_owned();
    out.push((host_key, host_val));
    proof {
        reveal_strlit("Host");
        assert(out.deep_view() =~= spec_kept_headers(headers.deep_view()).push((
            "Host"@,
            host_and_port@,
        )));
    }
    out
}

/// A failure of one step of the fetch pipeline.
pub enum FetchFailure {
    /// The origin connection could not be planned or established.
    Connect(ConnectError),
    /// The origin's response header was malformed or the stream ended.
    BadHeader,
    /// The cache directory or file could not be created.
    CacheIo,
    /// A redirect was refused.
    Redirect(RedirectError),
}

/// Every failure is recovered into a complete client response, never a
/// crash: a connection, cache or redirect failure is answered with an
/// internal error, a malformed origin header with a bad gateway.
pub fn failure_status(f: &FetchFailure) -> (r: u16)
    ensures
        f matches FetchFailure::Connect(_) ==> r == 500,
        f is BadHeader ==> r == 502,
        f is CacheIo ==> r == 500,
        f matches FetchFailure::Redirect(_) ==> r == 500,
{
    match f {
        FetchFailure::Connect(_) => 500,
        FetchFailure::BadHeader => 502,
        FetchFailure::CacheIo => 500,
        FetchFailure::Redirect(_) => 500,
    }
}

/// Liveness of the two sinks of a dual-sink body transfer: the cache file
/// and the client stream.
#[derive(Debug, Clone, Copy, PartialEq, Eq, Structural)]
pub struct SinkLiveness {
    pub file: bool,
    pub stream: bool,
}

/// What one segment's write outcomes do to the sinks: a failed write kills
/// its sink for the rest of the transfer, and a dead sink, which is never
/// written again, stays dead whatever its reported outcome.
pub open spec fn spec_sink_step(live: SinkLiveness, file_ok: bool, stream_ok: bool) -> SinkLiveness {
    SinkLiveness { file: live.file && file_ok, stream: live.stream && stream_ok }
}

impl SinkLiveness {
    /// Both sinks still accept writes.
    pub fn fresh() -> (r: SinkLiveness)
        ensures
            r == (SinkLiveness { file: true, stream: true }),
    {
        SinkLiveness { file: true, stream: true }
    }

    /// Record one segment's write outcomes, each flag saying whether the
    /// write to the still-live sink succeeded.
    pub fn step(self, file_ok: bool, stream_ok: bool) -> (r: SinkLiveness)
        ensures
            r == spec_sink_step(self, file_ok, stream_ok),
    {
        SinkLiveness { file: self.file && file_ok, stream: self.stream && stream_ok }
    }

    /// The transfer must stop early: no sink is left to write.
    pub fn both_dead(self) -> (r: bool)
        ensures
            r == (!self.file && !self.stream),
    {
        !self.file && !self.stream
    }
}

/// The sinks' liveness after a whole transfer, folding one segment's write
/// outcomes after another.
pub open spec fn spec_run_transfer(live: SinkLiveness, events: Seq<(bool, bool)>) -> SinkLiveness
    decreases events.len(),
{
    if events.len() == 0 {
        live
    } else {
        spec_run_transfer(spec_sink_step(live, events[0].0, events[0].1), events.drop_first())
    }
}

/// Dual-sink independence: the file sink's fate depends on the file-side
/// outcomes alone. However the client stream fails — closed at once,
/// mid-transfer, or never — the cache file sees the very same writes.
pub proof fn lemma_sink_independence(
    live1: SinkLiveness,
    live2: SinkLiveness,
    e1: Seq<(bool, bool)>,
    e2: Seq<(bool, bool)>,
)
    requires
        live1.file == live2.file,
        e1.len() == e2.len(),
        forall|i: int| 0 <= i < e1.len() ==> (#[trigger] e1[i]).0 == e2[i].0,
    ensures
        spec_run_transfer(live1, e1).file == spec_run_transfer(live2, e2).file,
    decreases e1.len(),
{
    if e1.len() > 0 {
        assert(e1[0].0 == e2[0].0);
        lemma_sink_independence(
            spec_sink_step(live1, e1[0].0, e1[0].1),
            spec_sink_step(live2, e2[0].0, e2[0].1),
            e1.drop_first(),
            e2.drop_first(),
        );
        assert(forall|i: int|
            0 <= i < e1.drop_first().len() ==> (#[trigger] e1.drop_first()[i]).0
                == e2.drop_first()[i].0);
    }
}

/// A transfer all of whose file-side writes succeed leaves the file sink
/// live to the end: the whole body reaches the cache file.
pub proof fn lemma_file_sink_survives(live: SinkLiveness, events: Seq<(bool, bool)>)
    requires
        live.file,
        forall|i: int| 0 <= i < events.len() ==> (#[trigger] events[i]).0,
    ensures
        spec_run_transfer(live, events).file,
    decreases events.len(),
{
    if events.len() > 0 {
        lemma_file_sink_survives(spec_sink_step(live, events[0].0, events[0].1), events.drop_first());
    }
}

/// What to do once the body transfer has ended.
pub struct TransferConclusion {
    /// The file sink died mid-transfer: the partial cache file must be
    /// deleted, never left to look like a valid cached copy.
    pub delete_file: bool,
    /// The client sink is still live and its write side should be shut down.
    pub shutdown_client: bool,
    /// Stamp the cache file with this modification time, taken from a
    /// parseable `Last-Modified` header of a fully persisted response.
    pub set_modified: Option<std::time::SystemTime>,
    /// Fate of the client connection, decided by the client's own request
    /// semantics unless the cache file was abandoned.
    pub disposition: ConnectionReturn,
}

/// Conclude a dual-sink transfer: decide deletion of a partial cache file,
/// client shutdown, the stored file's modification time, and the client
/// connection's fate.
pub fn conclude_transfer(
    live: SinkLiveness,
    last_modified: &Option<String>,
    client_keep_alive: bool,
) -> (r: TransferConclusion)
    ensures
        r.delete_file == !live.file,
        r.shutdown_client == live.stream,
        (r.set_modified is Some) <==> (live.file && (last_modified matches Some(lm)
            && httptime::http_date_ok(lm@))),
        r.disposition == (if live.file && client_keep_alive {
            ConnectionReturn::KeepAlive
        } else {
            ConnectionReturn::Close
        }),
{
    let set_modified: Option<std::time::SystemTime> = if live.file {
        match last_modified {
            Some(lm) => httptime::parse_http_date(lm.as_str()),
            None => None,
        }
    } else {
        None
    };
    TransferConclusion {
        delete_file: !live.file,
        shutdown_client: live.stream,
        set_modified,
        disposition: if live.file && client_keep_alive {
            ConnectionReturn::KeepAlive
        } else {
            ConnectionReturn::Close
        },
    }
}

} // verus!
