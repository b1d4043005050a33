//! Request-target model: a raw string parsed once into scheme, host, port,
//! path and query, plus its classification.
use vstd::prelude::*;
use vstd::string::StrSliceExecFns;

verus! {

/// Classification of a parsed request target, in priority order:
/// a full origin URI, a host-relative one, a bare path, or nothing usable.
#[derive(Debug, PartialEq, Eq, Structural, Clone, Copy)]
pub enum UriKind {
    AbsoluteAddress,
    AbsolutePath,
    RelativeAddress,
    Invalid,
}

/// First index at or after `from` where `c` occurs in `s`, if any.
pub open spec fn first_char_at(s: Seq<char>, c: char, from: int) -> Option<int>
    decreases s.len() - from,
{
    if from < 0 || from >= s.len() {
        None
    } else if s[from] == c {
        Some(from)
    } else {
        first_char_at(s, c, from + 1)
    }
}

/// The literal `"://"` starts at index `i` of `s`.
pub open spec fn sep_at(s: Seq<char>, i: int) -> bool {
    &&& 0 <= i
    &&& i + 3 <= s.len()
    &&& s[i] == ':'
    &&& s[i + 1] == '/'
    &&& s[i + 2] == '/'
}

/// First index at or after `from` where `"://"` starts in `s`, if any.
pub open spec fn first_sep_at(s: Seq<char>, from: int) -> Option<int>
    decreases s.len() - from,
{
    if from < 0 || from + 3 > s.len() {
        None
    } else if sep_at(s, from) {
        Some(from)
    } else {
        first_sep_at(s, from + 1)
    }
}

/// `s` holds `c` somewhere.
pub open spec fn contains_char(s: Seq<char>, c: char) -> bool {
    first_char_at(s, c, 0) is Some
}

pub(crate) proof fn lemma_first_char_at_bounds(s: Seq<char>, c: char, from: int)
    ensures
        match first_char_at(s, c, from) {
            Some(i) => from <= i < s.len() && s[i] == c,
            None => true,
        },
    decreases s.len() - from,
{
    if !(from < 0 || from >= s.len()) && s[from] != c {
        lemma_first_char_at_bounds(s, c, from + 1);
    }
}

pub(crate) proof fn lemma_first_sep_at_bounds(s: Seq<char>, from: int)
    ensures
        match first_sep_at(s, from) {
            Some(i) => from <= i && sep_at(s, i),
            None => true,
        },
    decreases s.len() - from,
{
    if !(from < 0 || from + 3 > s.len()) && !sep_at(s, from) {
        lemma_first_sep_at_bounds(s, from + 1);
    }
}

/// First occurrence of `c` in `s` at or after `from`, by a linear scan.
fn find_char_from(s: &str, c: char, from: usize) -> (r: Option<usize>)
    ensures
        match r {
            Some(i) => first_char_at(s@, c, from as int) == Some(i as int),
            None => first_char_at(s@, c, from as int) is None,
        },
{
    let n = s.unicode_len();
    let mut i = from;
    while i < n
        invariant
            s@.len() == n,
            from <= i,
            first_char_at(s@, c, from as int) == first_char_at(s@, c, i as int),
        decreases n - i,
    {
        if s.get_char(i) == c {
            return Some(i);
        }
        i = i + 1;
    }
    None
}

/// First occurrence of `"://"` in `s`, by a linear scan.
fn find_sep(s: &str) -> (r: Option<usize>)
    ensures
        match r {
            Some(i) => first_sep_at(s@, 0) == Some(i as int),
            None => first_sep_at(s@, 0) is None,
        },
{
    let n = s.unicode_len();
    if n < 3 {
        return None;
    }
    let mut i: usize = 0;
    while i <= n - 3
        invariant
            s@.len() == n,
            3 <= n,
            i <= n,
            first_sep_at(s@, 0) == first_sep_at(s@, i as int),
        decreases n - i,
    {
        if s.get_char(i) == ':' && s.get_char(i + 1) == '/' && s.get_char(i + 2) == '/' {
            return Some(i);
        }
        i = i + 1;
    }
    None
}

/// Whether `s` holds `c` anywhere, by a linear scan.
fn str_contains_char(s: &str, c: char) -> (r: bool)
    ensures
        r == contains_char(s@, c),
{
    match find_char_from(s, c, 0) {
        Some(_) => true,
        None => false,
    }
}

pub open spec fn is_digit(c: char) -> bool {
    '0' <= c && c <= '9'
}

pub open spec fn digit_val(c: char) -> int {
    if is_digit(c) {
        c as int - '0' as int
    } else {
        0
    }
}

pub open spec fn all_digits(s: Seq<char>) -> bool {
    forall|i: int| 0 <= i < s.len() ==> is_digit(#[trigger] s[i])
}

/// Value of a decimal digit string, most significant digit first.
pub open spec fn digits_val(s: Seq<char>) -> int
    decreases s.len(),
{
    if s.len() == 0 {
        0
    } else {
        digits_val(s.drop_last()) * 10 + digit_val(s.last())
    }
}

/// What an explicit port substring means: a non-empty all-digit string whose
/// value fits in sixteen bits, else nothing.
pub open spec fn spec_parse_u16(s: Seq<char>) -> Option<u16> {
    if s.len() > 0 && all_digits(s) && digits_val(s) <= u16::MAX {
        Some(digits_val(s) as u16)
    } else {
        None
    }
}

proof fn lemma_digits_val_nonneg(s: Seq<char>)
    ensures
        digits_val(s) >= 0,
    decreases s.len(),
{
    if s.len() > 0 {
        lemma_digits_val_nonneg(s.drop_last());
    }
}

/// A prefix of a digit string never exceeds the whole string's value.
proof fn lemma_digits_val_prefix(s: Seq<char>, i: int)
    requires
        0 <= i <= s.len(),
    ensures
        digits_val(s.take(i)) <= digits_val(s),
    decreases s.len() - i,
{
    if i < s.len() {
        lemma_digits_val_prefix(s, i + 1);
        assert(s.take(i + 1).drop_last() =~= s.take(i));
        assert(s.take(i + 1).last() == s[i]);
        lemma_digits_val_nonneg(s.take(i));
    } else {
        assert(s.take(i) =~= s);
    }
}

/// Decimal parse of a port substring.
fn parse_u16_digits(s: &str) -> (r: Option<u16>)
    ensures
        r == spec_parse_u16(s@),
{
    let n = s.unicode_len();
    if n == 0 {
        return None;
    }
    let mut i: usize = 0;
    let mut val: u32 = 0;
    while i < n
        invariant
            s@.len() == n,
            i <= n,
            all_digits(s@.take(i as int)),
            val == digits_val(s@.take(i as int)),
            val <= u16::MAX,
        decreases n - i,
    {
        let c = s.get_char(i);
        if !('0' <= c && c <= '9') {
            assert(!all_digits(s@));
            return None;
        }
        let d: u32 = (c as u32) - ('0' as u32);
        let next: u32 = val * 10 + d;
        proof {
            assert(s@.take(i + 1).drop_last() =~= s@.take(i as int));
            assert(s@.take(i + 1).last() == s@[i as int]);
        }
        if next > u16::MAX as u32 {
            proof {
                if all_digits(s@) {
                    lemma_digits_val_prefix(s@, i + 1);
                }
            }
            return None;
        }
        val = next;
        i = i + 1;
    }
    proof {
        assert(s@.take(n as int) =~= s@);
    }
    Some(val as u16)
}

/// What a numeric header value means: a non-empty all-digit string whose
/// value fits in sixty-four bits, else nothing.
pub open spec fn spec_parse_u64(s: Seq<char>) -> Option<u64> {
    if s.len() > 0 && all_digits(s) && digits_val(s) <= u64::MAX {
        Some(digits_val(s) as u64)
    } else {
        None
    }
}

/// Decimal parse of a length header value.
pub fn parse_u64_digits(s: &str) -> (r: Option<u64>)
    ensures
        r == spec_parse_u64(s@),
{
    let n = s.unicode_len();
    if n == 0 {
        return None;
    }
    let mut i: usize = 0;
    let mut val: u128 = 0;
    while i < n
        invariant
            s@.len() == n,
            i <= n,
            all_digits(s@.take(i as int)),
            val == digits_val(s@.take(i as int)),
            val <= u64::MAX,
        decreases n - i,
    {
        let c = s.get_char(i);
        if !('0' <= c && c <= '9') {
            assert(!all_digits(s@));
            return None;
        }
        let d: u128 = (c as u128) - ('0' as u128);
        let next: u128 = val * 10 + d;
        proof {
            assert(s@.take(i + 1).drop_last() =~= s@.take(i as int));
            assert(s@.take(i + 1).last() == s@[i as int]);
        }
        if next > u64::MAX as u128 {
            proof {
                if all_digits(s@) {
                    lemma_digits_val_prefix(s@, i + 1);
                }
            }
            return None;
        }
        val = next;
        i = i + 1;
    }
    proof {
        assert(s@.take(n as int) =~= s@);
    }
    Some(val as u64)
}

/// Decimal digits of `n`, most significant first.
pub open spec fn dec_rep(n: int) -> Seq<char>
    decreases n,
{
    if n < 10 {
        seq![dec_digit_char(n)]
    } else {
        dec_rep(n / 10) + seq![dec_digit_char(n % 10)]
    }
}

pub open spec fn dec_digit_char(d: int) -> char {
    ((d + ('0' as int)) as u8) as char
}

/// One decimal digit as a string slice.
fn dec_digit_str(d: u16) -> (r: &'static str)
    requires
        d < 10,
    ensures
        r@ =~= seq![dec_digit_char(d as int)],
{
    proof {
        reveal_strlit("0");
        reveal_strlit("1");
        reveal_strlit("2");
        reveal_strlit("3");
        reveal_strlit("4");
        reveal_strlit("5");
        reveal_strlit("6");
        reveal_strlit("7");
        reveal_strlit("8");
        reveal_strlit("9");
    }
    match d {
        0 => "0",
        1 => "1",
        2 => "2",
        3 => "3",
        4 => "4",
        5 => "5",
        6 => "6",
        7 => "7",
        8 => "8",
        _ => "9",
    }
}

/// Decimal rendering of a port number.
fn u16_to_dec_string(n: u16) -> (r: String)
    ensures
        r@ == dec_rep(n as int),
    decreases n,
{
    let d: u16 = n % 10;
    if n < 10 {
        dec_digit_str(d).to_owned()
    } else {
        let mut s = u16_to_dec_string(n / 10);
        s.append(dec_digit_str(d));
        s
    }
}

/// Where the authority (host and port) of `s` begins: right after the
/// `"://"` separator, or at the start when there is no scheme.
pub open spec fn spec_auth_start(s: Seq<char>) -> int {
    match first_sep_at(s, 0) {
        None => 0,
        Some(i) => i + 3,
    }
}

/// The scheme of `s`: everything up to and including the first `"://"`.
pub open spec fn spec_scheme(s: Seq<char>) -> Option<Seq<char>> {
    match first_sep_at(s, 0) {
        None => None,
        Some(i) => Some(s.subrange(0, i + 3)),
    }
}

/// Where the host token of `s` ends: the first `':'` or `'/'` after the
/// authority start, whichever comes first, or the end of the string.
pub open spec fn spec_host_end(s: Seq<char>) -> int {
    let a = spec_auth_start(s);
    match (first_char_at(s, ':', a), first_char_at(s, '/', a)) {
        (None, None) => s.len() as int,
        (Some(c), None) => c,
        (None, Some(sl)) => sl,
        (Some(c), Some(sl)) => if c <= sl {
            c
        } else {
            sl
        },
    }
}

/// The host of `s`: the token between the scheme (or the start) and the
/// first `':'`/`'/'`, recognized only when it holds a `'.'` and the string
/// is not a bare path.
pub open spec fn spec_host(s: Seq<char>) -> Option<Seq<char>> {
    if s.len() > 0 && s[0] == '/' {
        None
    } else {
        let h = s.subrange(spec_auth_start(s), spec_host_end(s));
        if contains_char(h, '.') {
            Some(h)
        } else {
            None
        }
    }
}

/// Where the authority of `s` ends: the first `'/'` after the authority
/// start, or the end of the string.
pub open spec fn spec_auth_end(s: Seq<char>) -> int {
    match first_char_at(s, '/', spec_auth_start(s)) {
        None => s.len() as int,
        Some(x) => x,
    }
}

/// The port a scheme implies when no explicit one is given.
pub open spec fn spec_scheme_port(s: Seq<char>) -> Option<u16> {
    match spec_scheme(s) {
        None => None,
        Some(sch) => if sch == "http://"@ {
            Some(80u16)
        } else if sch == "https://"@ {
            Some(443u16)
        } else {
            None
        },
    }
}

/// The port of `s`: the digits after an explicit `':'` inside the
/// authority, else the scheme-implied port. A malformed explicit port is
/// never overridden by the scheme.
pub open spec fn spec_port(s: Seq<char>) -> Option<u16> {
    let a = spec_auth_start(s);
    let e = spec_auth_end(s);
    match first_char_at(s, ':', a) {
        None => spec_scheme_port(s),
        Some(c) => if c < e {
            spec_parse_u16(s.subrange(c + 1, e))
        } else {
            spec_scheme_port(s)
        },
    }
}

/// Where the path of `s` begins: position zero for a bare path, else the
/// first `'/'` after the scheme, if any.
pub open spec fn spec_path_start(s: Seq<char>) -> Option<int> {
    if s.len() > 0 && s[0] == '/' {
        Some(0)
    } else {
        first_char_at(s, '/', spec_auth_start(s))
    }
}

/// The path of `s`: from the path start up to the first `'?'` within it.
pub open spec fn spec_path(s: Seq<char>) -> Option<Seq<char>> {
    match spec_path_start(s) {
        None => None,
        Some(p) => match first_char_at(s, '?', p) {
            None => Some(s.subrange(p, s.len() as int)),
            Some(q) => Some(s.subrange(p, q)),
        },
    }
}

/// The query of `s`: everything after the first `'?'` within the path.
pub open spec fn spec_query(s: Seq<char>) -> Option<Seq<char>> {
    match spec_path_start(s) {
        None => None,
        Some(p) => match first_char_at(s, '?', p) {
            None => None,
            Some(q) => Some(s.subrange(q + 1, s.len() as int)),
        },
    }
}

/// The path together with its query: everything from the path start on.
pub open spec fn spec_path_and_query(s: Seq<char>) -> Option<Seq<char>> {
    match spec_path_start(s) {
        None => None,
        Some(p) => Some(s.subrange(p, s.len() as int)),
    }
}

/// A view over an original request-target string plus derived fields,
/// each a substring of (or derived from) the original, computed once at
/// construction and never incrementally.
pub struct Uri {
    pub uri: String,
    pub scheme: Option<String>,
    pub host: Option<String>,
    pub port: Option<u16>,
    pub path: Option<String>,
    pub query: Option<String>,
    pub path_and_query: Option<String>,
}

impl Uri {
    /// Every derived field agrees with the parse model of the original string.
    pub open spec fn wf(self) -> bool {
        &&& self.scheme.deep_view() == spec_scheme(self.uri@)
        &&& self.host.deep_view() == spec_host(self.uri@)
        &&& self.port == spec_port(self.uri@)
        &&& self.path.deep_view() == spec_path(self.uri@)
        &&& self.query.deep_view() == spec_query(self.uri@)
        &&& self.path_and_query.deep_view() == spec_path_and_query(self.uri@)
    }

    /// Parse a raw request target. Never fails: fields that cannot be
    /// recognized simply stay unset.
    pub fn new(uri: String) -> (r: Uri)
        ensures
            r.uri@ == uri@,
            r.wf(),
    {
        let mut r = Uri {
            uri,
            scheme: None,
            host: None,
            port: None,
            path: None,
            query: None,
            path_and_query: None,
        };
        r.update_references();
        r
    }

    /// Recompute every derived field from the stored original string.
    pub fn update_references(&mut self)
        ensures
            final(self).uri@ == old(self).uri@,
            final(self).wf(),
    {
        let s: &str = self.uri.as_str();
        let n = s.unicode_len();
        let sep = find_sep(s);

        proof {
            lemma_first_sep_at_bounds(self.uri@, 0);
        }
        let auth_start: usize = match sep {
            None => 0,
            Some(i) => i + 3,
        };
        assert(auth_start as int == spec_auth_start(self.uri@));
        assert(auth_start <= n);

        let scheme: Option<String> = match sep {
            None => None,
            Some(i) => Some(s.substring_char(0, i + 3).to_owned()),
        };

        let colon = find_char_from(s, ':', auth_start);
        let slash = find_char_from(s, '/', auth_start);
        proof {
            lemma_first_char_at_bounds(self.uri@, ':', auth_start as int);
            lemma_first_char_at_bounds(self.uri@, '/', auth_start as int);
        }

        let host_end: usize = match (colon, slash) {
            (None, None) => n,
            (Some(c), None) => c,
            (None, Some(sl)) => sl,
            (Some(c), Some(sl)) => if c <= sl {
                c
            } else {
                sl
            },
        };
        assert(host_end as int == spec_host_end(self.uri@));

        let host: Option<String> = if n > 0 && s.get_char(0) == '/' {
            None
        } else {
            let h = s.substring_char(auth_start, host_end);
            if str_contains_char(h, '.') {
                Some(h.to_owned())
            } else {
                None
            }
        };

        let auth_end: usize = match slash {
            None => n,
            Some(x) => x,
        };

        let port: Option<u16> = {
            let inferred: Option<u16> = match &scheme {
                None => None,
                Some(sch) => {
                    proof {
                        reveal_strlit("http://");
                        reveal_strlit("https://");
                    }
                    if sch.as_str().unicode_len() == 7 {
                        if str_eq_chars(sch.as_str(), "http://") {
                            Some(80u16)
                        } else {
                            None
                        }
                    } else if sch.as_str().unicode_len() == 8 {
                        if str_eq_chars(sch.as_str(), "https://") {
                            Some(443u16)
                        } else {
                            None
                        }
                    } else {
                        None
                    }
                },
            };
            match colon {
                None => inferred,
                Some(c) => if c < auth_end {
                    parse_u16_digits(s.substring_char(c + 1, auth_end))
                } else {
                    inferred
                },
            }
        };
        assert(port == spec_port(self.uri@));

        let path_start: Option<usize> = if n > 0 && s.get_char(0) == '/' {
            Some(0)
        } else {
            find_char_from(s, '/', auth_start)
        };

        let (path, query, path_and_query): (Option<String>, Option<String>, Option<String>) =
            match path_start {
            None => (None, None, None),
            Some(p) => {
                proof {
                    lemma_first_char_at_bounds(self.uri@, '?', p as int);
                }
                match find_char_from(s, '?', p) {
                    None => (
                        Some(s.substring_char(p, n).to_owned()),
                        None,
                        Some(s.substring_char(p, n).to_owned()),
                    ),
                    Some(q) => (
                        Some(s.substring_char(p, q).to_owned()),
                        Some(s.substring_char(q + 1, n).to_owned()),
                        Some(s.substring_char(p, n).to_owned()),
                    ),
                }
            },
        };

        self.scheme = scheme;
        self.host = host;
        self.port = port;
        self.path = path;
        self.query = query;
        self.path_and_query = path_and_query;
    }
}

impl Uri {
    /// Classification of this target, evaluated in priority order.
    pub open spec fn spec_kind(self) -> UriKind {
        if (self.scheme is Some || self.port is Some) && self.host is Some && self.path is Some {
            UriKind::AbsoluteAddress
        } else if self.host is Some && self.path is Some {
            UriKind::RelativeAddress
        } else if self.path matches Some(p) && p@.len() > 0 && p@[0] == '/' {
            UriKind::AbsolutePath
        } else {
            UriKind::Invalid
        }
    }

    /// Classify this target: a full origin URI, a host-relative one, a bare
    /// path, or nothing usable, in that priority order.
    pub fn kind(&self) -> (k: UriKind)
        ensures
            k == self.spec_kind(),
    {
        if (self.scheme.is_some() || self.port.is_some()) && self.host.is_some()
            && self.path.is_some() {
            return UriKind::AbsoluteAddress;
        }
        if self.host.is_some() && self.path.is_some() {
            return UriKind::RelativeAddress;
        }
        match &self.path {
            Some(p) => {
                let ps = p.as_str();
                if ps.unicode_len() > 0 && ps.get_char(0) == '/' {
                    return UriKind::AbsolutePath;
                }
            },
            None => {},
        }
        UriKind::Invalid
    }

    /// Two targets address the same origin: a bare path is implicitly
    /// same-origin, otherwise host and port must both match exactly.
    pub open spec fn spec_same_host_as(self, other: Uri) -> bool {
        ||| other.spec_kind() == UriKind::AbsolutePath
        ||| (self.host.deep_view() == other.host.deep_view() && self.port == other.port)
    }

    /// Whether `other` may reuse the origin connection of `self`.
    pub fn same_host_as(&self, other: &Uri) -> (r: bool)
        ensures
            r == self.spec_same_host_as(*other),
    {
        if other.kind() == UriKind::AbsolutePath {
            return true;
        }
        let hosts_match = match (&self.host, &other.host) {
            (None, None) => true,
            (Some(a), Some(b)) => str_eq_chars(a.as_str(), b.as_str()),
            _ => false,
        };
        let ports_match = match (&self.port, &other.port) {
            (None, None) => true,
            (Some(a), Some(b)) => *a == *b,
            _ => false,
        };
        hosts_match && ports_match
    }

    /// `"{host}:{port}"`, only when both parts are present.
    pub open spec fn spec_host_and_port(self) -> Option<Seq<char>> {
        match (self.host, self.port) {
            (Some(h), Some(p)) => Some(h@ + seq![':'] + dec_rep(p as int)),
            _ => None,
        }
    }

    /// The origin address to connect to, when the target names one.
    pub fn host_and_port(&self) -> (r: Option<String>)
        ensures
            r.deep_view() == self.spec_host_and_port(),
    {
        match (&self.host, &self.port) {
            (Some(h), Some(p)) => {
                let mut out = h.clone();
                proof {
                    reveal_strlit(":");
                }
                out.append(":");
                let digits = u16_to_dec_string(*p);
                out.append(digits.as_str());
                assert(out@ =~= self.host->Some_0@ + seq![':'] + dec_rep(*p as int));
                Some(out)
            },
            _ => None,
        }
    }
}

/// Every target classified as a full origin URI carries a scheme or an
/// explicit port, a host, and a path.
pub proof fn lemma_absolute_address_components(u: Uri)
    requires
        u.spec_kind() == UriKind::AbsoluteAddress,
    ensures
        u.scheme is Some || u.port is Some,
        u.host is Some,
        u.path is Some,
{
}

/// For a parsed target with a path, `path_and_query` reconstructs the path
/// plus `?query` exactly when a query exists, and equals the path otherwise.
pub proof fn lemma_path_and_query_round_trip(u: Uri)
    requires
        u.wf(),
        u.path is Some,
    ensures
        u.path_and_query is Some,
        u.query is Some ==> u.path_and_query->Some_0@ == u.path->Some_0@ + seq!['?']
            + u.query->Some_0@,
        u.query is None ==> u.path_and_query->Some_0@ == u.path->Some_0@,
{
    let s = u.uri@;
    let p = spec_path_start(s)->Some_0;
    lemma_first_char_at_bounds(s, '/', spec_auth_start(s));
    match first_char_at(s, '?', p) {
        None => {},
        Some(q) => {
            lemma_first_char_at_bounds(s, '?', p);
            assert(s.subrange(p, s.len() as int) =~= s.subrange(p, q) + seq!['?'] + s.subrange(
                q + 1,
                s.len() as int,
            ));
        },
    }
}

/// Character-for-character equality of two string slices.
pub(crate) fn str_eq_chars(a: &str, b: &str) -> (r: bool)
    ensures
        r == (a@ == b@),
{
    let na = a.unicode_len();
    let nb = b.unicode_len();
    if na != nb {
        return false;
    }
    let mut i: usize = 0;
    while i < na
        invariant
            a@.len() == na,
            b@.len() == nb,
            na == nb,
            i <= na,
            forall|j: int| 0 <= j < i ==> a@[j] == b@[j],
        decreases na - i,
    {
        if a.get_char(i) != b.get_char(i) {
            return false;
        }
        i = i + 1;
    }
    proof {
        assert(a@ =~= b@);
    }
    true
}

} // verus!
