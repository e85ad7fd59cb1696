//! Request and response rules of the Studio client: error mapping,
//! argument checks, download file names, server addresses and the
//! ranking of name searches.

use vstd::prelude::*;
use crate::error::Error;
use crate::dataset::Group;
use crate::ids::TaskID;
use crate::path::{file_name, file_name_of, file_stem, file_stem_of};
use crate::text::{
    chars_from, chars_of, decimal_text, ends_with_chars, is_prefix, push_char, push_decimal,
    same_chars, starts_with, string_from_chars,
};

verus! {

/// The error a failed JSON-RPC call reports: code 101 with a task is that
/// task not being found; codes 401 and 403 deny the method; 413 means the
/// request was too large; any other code passes through with its message.
pub open spec fn rpc_error_for(method: Seq<char>, code: i32, message: Seq<char>, task_id: Option<TaskID>, e: Error) -> bool {
    if code == 101 && task_id is Some {
        e == Error::TaskNotFound(task_id->0)
    } else if code == 401 || code == 403 {
        e matches Error::PermissionDenied(m) && m@ == method
    } else if code == 413 {
        e matches Error::PayloadTooLarge { method: m, size_hint } && m@ == method && size_hint is None
    } else {
        e matches Error::RpcError(c, m) && c == code && m@ == message
    }
}

/// Map a JSON-RPC error code to a typed error when the code is well known.
pub fn map_rpc_error(method: &str, code: i32, message: String, task_id: Option<TaskID>) -> (e: Error)
    ensures
        rpc_error_for(method@, code, message@, task_id, e),
{
    if code == 101 {
        if let Some(id) = task_id {
            return Error::TaskNotFound(id);
        }
    }
    if code == 401 || code == 403 {
        Error::PermissionDenied(method.to_owned())
    } else if code == 413 {
        Error::PayloadTooLarge { method: method.to_owned(), size_hint: None }
    } else {
        Error::RpcError(code, message)
    }
}

/// The message for chart arguments that are empty.
pub open spec fn chart_args_message() -> Seq<char> {
    "chart: group and name must be non-empty"@
}

/// Check that a chart's group and name are both non-empty.
pub fn validate_chart_args(group: &str, name: &str) -> (r: Result<(), Error>)
    ensures
        r is Ok <==> group@.len() > 0 && name@.len() > 0,
        r matches Err(e) ==> e matches Error::InvalidParameters(m) && m@ == chart_args_message(),
{
    broadcast use vstd::string::group_string_axioms;
    if group.is_empty() || name.is_empty() {
        return Err(Error::InvalidParameters(String::from_str("chart: group and name must be non-empty")));
    }
    Ok(())
}

/// The file name a sample file is saved under: when flattening a
/// sequence into one directory, a name that does not already start with
/// `{sequence}_` is prefixed with `{sequence}_{frame}_` (or `{sequence}_`
/// without a frame number).
pub open spec fn flattened_name(base: Seq<char>, flatten: bool, sequence: Option<Seq<char>>, frame: Option<u32>) -> Seq<char> {
    match sequence {
        Some(seq_name) => {
            let prefix = seq_name.push('_');
            if !flatten || is_prefix(prefix, base) {
                base
            } else {
                match frame {
                    Some(f) => prefix + decimal_text(f as nat) + "_"@ + base,
                    None => prefix + base,
                }
            }
        },
        None => base,
    }
}

/// Build the file name of a sample file for download.
pub fn build_filename(
    base_name: &str,
    flatten: bool,
    sequence_name: Option<&String>,
    frame_number: Option<u32>,
) -> (r: String)
    ensures
        r@ == flattened_name(
            base_name@,
            flatten,
            match sequence_name {
                Some(s) => Some(s@),
                None => None,
            },
            frame_number,
        ),
{
    let seq_name = match sequence_name {
        Some(s) => s,
        None => {
            return base_name.to_owned();
        },
    };
    if !flatten {
        return base_name.to_owned();
    }
    let mut prefix = chars_of(seq_name.as_str());
    prefix.push('_');
    let base = chars_of(base_name);
    if starts_with(&base, &prefix) {
        return base_name.to_owned();
    }
    let mut out = string_from_chars(&prefix);
    match frame_number {
        Some(frame) => {
            push_decimal(&mut out, frame as u64);
            out.append("_");
            proof {
                reveal_strlit("_");
            }
        },
        None => {},
    }
    out.append(base_name);
    out
}

/// A host as the client compares it: a domain name's characters, or an
/// address's octets (IPv4) or 16-bit segments (IPv6).
pub enum HostView {
    Domain(Seq<char>),
    Ipv4(Seq<u8>),
    Ipv6(Seq<u16>),
}

/// The host of a parsed URL.
#[derive(Clone, Debug)]
pub enum UrlHost {
    Domain(String),
    Ipv4([u8; 4]),
    Ipv6([u16; 8]),
}

impl View for UrlHost {
    type V = HostView;

    open spec fn view(&self) -> HostView {
        match self {
            UrlHost::Domain(d) => HostView::Domain(d@),
            UrlHost::Ipv4(o) => HostView::Ipv4(o@),
            UrlHost::Ipv6(s) => HostView::Ipv6(s@),
        }
    }
}

/// What the client reads of a parsed URL: its scheme and host.
#[derive(Clone, Debug)]
pub struct UrlParts {
    pub scheme: String,
    pub host: Option<UrlHost>,
}

impl View for UrlParts {
    type V = (Seq<char>, Option<HostView>);

    open spec fn view(&self) -> (Seq<char>, Option<HostView>) {
        (
            self.scheme@,
            match self.host {
                Some(h) => Some(h@),
                None => None,
            },
        )
    }
}

/// The scheme and host `url::Url::parse` finds in a string, or the text
/// of its parse error.
pub uninterp spec fn url_parse(s: Seq<char>) -> Result<(Seq<char>, Option<HostView>), Seq<char>>;

/// Parses a URL (crate `url`: `Url::parse`, then `scheme` and `host`).
/// Stated: the outcome is the named result of the input text; the URL
/// grammar itself is left unsaid.
#[verifier::external_body]
fn parse_url(s: &str) -> (r: Result<UrlParts, String>)
    ensures
        url_parse(s@) == match r {
            Ok(p) => Ok(p@),
            Err(m) => Err(m@),
        },
{
    match url::Url::parse(s) {
        Ok(u) => Ok(UrlParts {
            scheme: u.scheme().to_string(),
            host: match u.host() {
                Some(url::Host::Domain(d)) => Some(UrlHost::Domain(d.to_string())),
                Some(url::Host::Ipv4(ip)) => Some(UrlHost::Ipv4(ip.octets())),
                Some(url::Host::Ipv6(ip)) => Some(UrlHost::Ipv6(ip.segments())),
                None => None,
            },
        }),
        Err(e) => Err(e.to_string()),
    }
}

/// `c` with ASCII upper-case letters made lower-case.
pub open spec fn ascii_lower_char(c: char) -> char {
    if 'A' <= c <= 'Z' {
        ((c as u32) + 32) as char
    } else {
        c
    }
}

/// `s` with ASCII upper-case letters made lower-case.
pub open spec fn ascii_lower(s: Seq<char>) -> Seq<char> {
    s.map_values(|c: char| ascii_lower_char(c))
}

/// Whether a host is the local machine: an IPv4 address in 127.0.0.0/8,
/// the IPv6 address `::1`, or `localhost` or a name under `.localhost`
/// in any ASCII case.
pub open spec fn is_loopback(host: Option<HostView>) -> bool {
    match host {
        Some(HostView::Ipv4(o)) => o.len() == 4 && o[0] == 127,
        Some(HostView::Ipv6(s)) => s =~= seq![0u16, 0, 0, 0, 0, 0, 0, 1],
        Some(HostView::Domain(d)) => ascii_lower(d) == "localhost"@ || (ascii_lower(d).len()
            >= ".localhost"@.len() && ascii_lower(d).skip(ascii_lower(d).len() - ".localhost"@.len())
            == ".localhost"@),
        None => false,
    }
}

/// `s` without its trailing `/` characters.
pub open spec fn trim_trailing_slashes(s: Seq<char>) -> Seq<char>
    decreases s.len(),
{
    if s.len() > 0 && s.last() == '/' {
        trim_trailing_slashes(s.drop_last())
    } else {
        s
    }
}

/// Whether `r` is the address a client may use for the URL `url`: `https`
/// URLs, and `http` URLs to the local machine, are accepted without their
/// trailing slashes; other URLs are refused as insecure; text that does
/// not parse is refused with the parser's message.
pub open spec fn url_outcome(url: Seq<char>, r: Result<String, Error>) -> bool {
    match url_parse(url) {
        Err(m) => r matches Err(Error::UrlParseError(e)) && e@ == m,
        Ok((scheme, host)) => if (scheme == "http"@ && is_loopback(host)) || scheme == "https"@ {
            r matches Ok(u) && u@ == trim_trailing_slashes(url)
        } else {
            r matches Err(Error::InsecureUrl(u)) && u@ == url
        },
    }
}

/// Lower-cases the ASCII letters of `s`.
fn to_ascii_lower(s: &Vec<char>) -> (r: Vec<char>)
    ensures
        r@ == ascii_lower(s@),
{
    let mut r: Vec<char> = Vec::new();
    let mut i: usize = 0;
    while i < s.len()
        invariant
            i <= s.len(),
            r@ =~= ascii_lower(s@.take(i as int)),
        decreases s.len() - i,
    {
        let c = s[i];
        let l = if 'A' <= c && c <= 'Z' {
            ((c as u8) + 32) as char
        } else {
            c
        };
        r.push(l);
        assert(ascii_lower(s@.take(i + 1)) =~= ascii_lower(s@.take(i as int)).push(l));
        i = i + 1;
    }
    assert(s@.take(s.len() as int) =~= s@);
    r
}

/// Decides whether a URL host is the local machine.
pub fn is_loopback_host(host: Option<&UrlHost>) -> (b: bool)
    ensures
        b == is_loopback(
            match host {
                Some(h) => Some(h@),
                None => None,
            },
        ),
{
    match host {
        Some(UrlHost::Ipv4(o)) => o[0] == 127,
        Some(UrlHost::Ipv6(s)) => {
            let r = s[0] == 0 && s[1] == 0 && s[2] == 0 && s[3] == 0 && s[4] == 0 && s[5] == 0
                && s[6] == 0 && s[7] == 1;
            proof {
                if r {
                    assert(s@ =~= seq![0u16, 0, 0, 0, 0, 0, 0, 1]);
                } else if s@ =~= seq![0u16, 0, 0, 0, 0, 0, 0, 1] {
                    assert(s@[0] == 0 && s@[7] == 1);
                }
            }
            r
        },
        Some(UrlHost::Domain(d)) => {
            let lower = to_ascii_lower(&chars_of(d.as_str()));
            let name = chars_of("localhost");
            let suffix = chars_of(".localhost");
            same_chars(&lower, &name) || ends_with_chars(&lower, &suffix)
        },
        None => false,
    }
}

/// `s` without its trailing `/` characters.
fn trim_slashes(s: &str) -> (r: String)
    ensures
        r@ == trim_trailing_slashes(s@),
{
    let v = chars_of(s);
    let mut n: usize = v.len();
    assert(v@.take(n as int) =~= v@);
    while n > 0 && v[n - 1] == '/'
        invariant
            n <= v.len(),
            trim_trailing_slashes(v@.take(n as int)) == trim_trailing_slashes(v@),
        decreases n,
    {
        assert(v@.take(n as int).drop_last() =~= v@.take(n - 1));
        n = n - 1;
    }
    let mut out: Vec<char> = Vec::new();
    let mut k: usize = 0;
    while k < n
        invariant
            k <= n <= v.len(),
            out@ == v@.take(k as int),
        decreases n - k,
    {
        out.push(v[k]);
        assert(v@.take(k as int).push(v@[k as int]) =~= v@.take(k + 1));
        k = k + 1;
    }
    string_from_chars(&out)
}

/// Check a URL for use as the client's server address (`Client::with_url`)
/// and give the address without trailing slashes.
pub fn client_url(url: &str) -> (r: Result<String, Error>)
    ensures
        url_outcome(url@, r),
{
    let parsed = match parse_url(url) {
        Ok(p) => p,
        Err(m) => {
            return Err(Error::UrlParseError(m));
        },
    };
    let scheme = chars_of(parsed.scheme.as_str());
    let http = chars_of("http");
    let https = chars_of("https");
    proof {
        reveal_strlit("http");
        reveal_strlit("https");
        assert("http"@.len() != "https"@.len());
    }
    if same_chars(&scheme, &http) {
        if !is_loopback_host(parsed.host.as_ref()) {
            return Err(Error::InsecureUrl(url.to_owned()));
        }
    } else if !same_chars(&scheme, &https) {
        return Err(Error::InsecureUrl(url.to_owned()));
    }
    Ok(trim_slashes(url))
}

/// The address of the production server.
pub open spec fn saas_url() -> Seq<char> {
    "https://edgefirst.studio"@
}

/// The address a short server name stands for: the production server for
/// `""` or `"saas"`, else `https://{name}.edgefirst.studio`.
pub open spec fn short_server_url(name: Seq<char>) -> Seq<char> {
    if name.len() == 0 || name == "saas"@ {
        saas_url()
    } else {
        "https://"@ + name + ".edgefirst.studio"@
    }
}

/// Whether `s` is a full URL rather than a server name.
pub open spec fn is_full_url(s: Seq<char>) -> bool {
    is_prefix("http://"@, s) || is_prefix("https://"@, s)
}

/// Whether `r` is the address `Client::with_server` switches to: a full
/// URL is checked as `Client::with_url` checks it, a name maps to its
/// Studio address.
pub open spec fn server_outcome(server: Seq<char>, r: Result<String, Error>) -> bool {
    if is_full_url(server) {
        url_outcome(server, r)
    } else {
        r matches Ok(u) && u@ == short_server_url(server)
    }
}

/// The server name of a client address, as `Client::server` reports it:
/// the name in `https://{name}.edgefirst.studio`, else `saas`.
pub open spec fn server_name_of(url: Seq<char>) -> Seq<char> {
    let rest = url.skip("https://"@.len() as int);
    let suffix = ".edgefirst.studio"@;
    if url == saas_url() {
        "saas"@
    } else if is_prefix("https://"@, url) && rest.len() >= suffix.len() && rest.skip(
        rest.len() - suffix.len(),
    ) == suffix {
        rest.take(rest.len() - suffix.len())
    } else {
        "saas"@
    }
}

/// Resolve the address a client switches to for a server name or URL.
pub fn server_address(server: &str) -> (r: Result<String, Error>)
    ensures
        server_outcome(server@, r),
{
    let s = chars_of(server);
    if starts_with(&s, &chars_of("http://")) || starts_with(&s, &chars_of("https://")) {
        return client_url(server);
    }
    if s.len() == 0 || same_chars(&s, &chars_of("saas")) {
        return Ok(String::from_str("https://edgefirst.studio"));
    }
    let mut out = String::from_str("https://");
    out.append(server);
    out.append(".edgefirst.studio");
    Ok(out)
}

/// The server name of a client address.
pub fn server_name(url: &str) -> (r: String)
    ensures
        r@ == server_name_of(url@),
{
    let u = chars_of(url);
    if same_chars(&u, &chars_of("https://edgefirst.studio")) {
        return String::from_str("saas");
    }
    let head = chars_of("https://");
    if starts_with(&u, &head) {
        let rest = crate::text::chars_from(&u, head.len());
        let suffix = chars_of(".edgefirst.studio");
        if ends_with_chars(&rest, &suffix) {
            let n = rest.len() - suffix.len();
            let mut name: Vec<char> = Vec::new();
            let mut k: usize = 0;
            while k < n
                invariant
                    k <= n <= rest.len(),
                    name@ == rest@.take(k as int),
                decreases n - k,
            {
                name.push(rest[k]);
                assert(rest@.take(k as int).push(rest@[k as int]) =~= rest@.take(k + 1));
                k = k + 1;
            }
            return string_from_chars(&name);
        }
    }
    String::from_str("saas")
}

/// A server name maps to an address whose server name is that name again,
/// `""` being reported as `saas`.
pub proof fn lemma_server_name_round_trip(name: Seq<char>)
    requires
        !is_full_url(name),
    ensures
        server_name_of(short_server_url(name)) == (if name.len() == 0 {
            "saas"@
        } else {
            name
        }),
{
    reveal_strlit("https://edgefirst.studio");
    reveal_strlit("https://");
    reveal_strlit(".edgefirst.studio");
    reveal_strlit("saas");
    let url = short_server_url(name);
    if name.len() == 0 || name == "saas"@ {
        assert(url == saas_url());
    } else {
        let head = "https://"@;
        let suffix = ".edgefirst.studio"@;
        assert(url == head + name + suffix);
        assert(is_prefix(head, url)) by {
            assert(url.take(head.len() as int) =~= head);
        }
        let rest = url.skip(head.len() as int);
        assert(rest =~= name + suffix);
        assert(rest.skip(rest.len() - suffix.len()) =~= suffix);
        assert(rest.take(rest.len() - suffix.len()) =~= name);
        if url == saas_url() {
            assert(url.len() == saas_url().len());
            assert(name.len() == 0);
        }
    }
}

/// A flattened file name ends with the name it was given, so its extension
/// is kept.
pub proof fn lemma_flattened_name_keeps_base(
    base: Seq<char>,
    flatten: bool,
    sequence: Option<Seq<char>>,
    frame: Option<u32>,
)
    ensures
        ({
            let n = flattened_name(base, flatten, sequence, frame);
            n.len() >= base.len() && n.skip(n.len() - base.len()) == base
        }),
{
    let n = flattened_name(base, flatten, sequence, frame);
    assert(n.skip(n.len() - base.len()) =~= base);
}

/// The bytes that base64 text decodes to (standard alphabet, no padding),
/// if it is valid.
pub uninterp spec fn base64_decode(s: Seq<char>) -> Option<Seq<u8>>;

/// Decodes base64 text (crate `base64`: `STANDARD_NO_PAD.decode`).
/// Stated: the outcome is the named decoding of the input text; the
/// alphabet and padding rules are left unsaid.
#[verifier::external_body]
fn decode_base64(s: &str) -> (r: Option<Vec<u8>>)
    ensures
        base64_decode(s@) == match r {
            Some(v) => Some(v@),
            None => None::<Seq<u8>>,
        },
{
    base64::Engine::decode(&base64::engine::general_purpose::STANDARD_NO_PAD, s).ok()
}

/// What the JSON object in `payload` holds under `field`: the text of the
/// parse error, nothing when the field is absent, or the field's text
/// when it is a string (`None` when it is another kind of value).
pub uninterp spec fn json_text_field(payload: Seq<u8>, field: Seq<char>) -> Result<Option<Option<Seq<char>>>, Seq<char>>;

/// Reads a text field of a JSON object (crate `serde_json`: `from_slice`
/// into a map of values, then `get` and `as_str`). Stated: the outcome is
/// the named reading of the payload and field; JSON syntax is left
/// unsaid.
#[verifier::external_body]
fn json_object_text_field(payload: &Vec<u8>, field: &str) -> (r: Result<Option<Option<String>>, String>)
    ensures
        json_text_field(payload@, field@) == match r {
            Ok(Some(Some(t))) => Ok(Some(Some(t@))),
            Ok(Some(None)) => Ok(Some(None)),
            Ok(None) => Ok(None),
            Err(m) => Err(m@),
        },
{
    match serde_json::from_slice::<std::collections::HashMap<String, serde_json::Value>>(payload) {
        Ok(map) => Ok(match map.get(field) {
            Some(v) => Some(v.as_str().map(String::from)),
            None => None,
        }),
        Err(e) => Err(e.to_string()),
    }
}

/// Scanning the first `n` characters of `t`: the `.`-separated parts
/// completed and the part in progress.
pub open spec fn dot_scan(t: Seq<char>, n: int) -> (Seq<Seq<char>>, Seq<char>)
    decreases n,
{
    if n <= 0 {
        (Seq::empty(), Seq::empty())
    } else {
        let (parts, cur) = dot_scan(t, n - 1);
        if t[n - 1] == '.' {
            (parts.push(cur), Seq::empty())
        } else {
            (parts, cur.push(t[n - 1]))
        }
    }
}

/// The `.`-separated parts of `t` (as `str::split('.')` gives them).
pub open spec fn dot_parts(t: Seq<char>) -> Seq<Seq<char>> {
    let (parts, cur) = dot_scan(t, t.len() as int);
    parts.push(cur)
}

/// What a JSON-RPC reply gives: its error, as `RpcError` with the error's
/// code and message, when it has one; else its result; a reply with
/// neither is an invalid response.
pub fn classify_rpc_reply<T>(error: Option<(i32, String)>, result: Option<T>) -> (r: Result<T, Error>)
    ensures
        match error {
            Some((code, message)) => r matches Err(Error::RpcError(c, m)) && c == code && m@ == message@,
            None => match result {
                Some(x) => r == Ok::<T, Error>(x),
                None => r matches Err(Error::InvalidResponse),
            },
        },
{
    match error {
        Some((code, message)) => Err(Error::RpcError(code, message)),
        None => match result {
            Some(x) => Ok(x),
            None => Err(Error::InvalidResponse),
        },
    }
}

/// A field of the server's reply to a multipart snapshot request: the
/// snapshot's id, or the upload of one file.
pub enum MultipartField<P> {
    Id(u64),
    Part(P),
}

/// The first field named `key` of a reply.
pub open spec fn reply_field<P>(fields: Seq<(String, MultipartField<P>)>, key: Seq<char>) -> Option<MultipartField<P>>
    decreases fields.len(),
{
    if fields.len() == 0 {
        None
    } else if fields[0].0@ == key {
        Some(fields[0].1)
    } else {
        reply_field(fields.drop_first(), key)
    }
}

/// The position of the first field named `key`.
fn find_reply_field<P>(fields: &Vec<(String, MultipartField<P>)>, key: &str) -> (r: Option<usize>)
    ensures
        match reply_field(fields@, key@) {
            Some(f) => r matches Some(i) && i < fields.len() && fields@[i as int].1 == f,
            None => r is None,
        },
{
    let k = String::from_str(key);
    let mut i: usize = 0;
    assert(fields@.skip(0) =~= fields@);
    while i < fields.len()
        invariant
            i <= fields.len(),
            k@ == key@,
            reply_field(fields@, key@) == reply_field(fields@.skip(i as int), key@),
        decreases fields.len() - i,
    {
        assert(fields@.skip(i as int).drop_first() =~= fields@.skip(i + 1));
        assert(fields@.skip(i as int)[0] == fields@[i as int]);
        if fields[i].0 == k {
            return Some(i);
        }
        i = i + 1;
    }
    assert(fields@.skip(i as int) =~= Seq::<(String, MultipartField<P>)>::empty());
    None
}

/// The snapshot id of a multipart reply: its `snapshot_id` field when that
/// is an id, else an invalid response.
pub fn reply_snapshot_id<P>(fields: &Vec<(String, MultipartField<P>)>) -> (r: Result<u64, Error>)
    ensures
        match reply_field(fields@, "snapshot_id"@) {
            Some(MultipartField::Id(id)) => r == Ok::<u64, Error>(id),
            _ => r matches Err(Error::InvalidResponse),
        },
{
    match find_reply_field(fields, "snapshot_id") {
        Some(i) => match &fields[i].1 {
            MultipartField::Id(id) => Ok(*id),
            MultipartField::Part(_) => Err(Error::InvalidResponse),
        },
        None => Err(Error::InvalidResponse),
    }
}

/// The position of the upload for file `key` in a multipart reply: its
/// field when that is an upload, else an invalid response.
pub fn reply_part<P>(fields: &Vec<(String, MultipartField<P>)>, key: &str) -> (r: Result<usize, Error>)
    ensures
        match reply_field(fields@, key@) {
            Some(MultipartField::Part(p)) => r matches Ok(i) && i < fields.len() && fields@[i as int].1
                == MultipartField::<P>::Part(p),
            _ => r matches Err(Error::InvalidResponse),
        },
{
    match find_reply_field(fields, key) {
        Some(i) => match &fields[i].1 {
            MultipartField::Part(_) => Ok(i),
            MultipartField::Id(_) => Err(Error::InvalidResponse),
        },
        None => Err(Error::InvalidResponse),
    }
}

/// Whether the separator `::/` stands in `s` at position `i`.
pub open spec fn storage_separator_at(s: Seq<char>, i: int) -> bool {
    0 <= i && i + 3 <= s.len() && s[i] == ':' && s[i + 1] == ':' && s[i + 2] == '/'
}

/// Where the text after the last `::/` that ends within the first `n`
/// characters of `s` starts (0 when there is none).
pub open spec fn after_last_separator(s: Seq<char>, n: int) -> int
    decreases n,
{
    if n < 3 {
        0
    } else if storage_separator_at(s, n - 3) {
        n
    } else {
        after_last_separator(s, n - 1)
    }
}

/// The storage prefix of a snapshot's path: the text after its last
/// `::/` (the whole path when it has none).
pub open spec fn snapshot_prefix(path: Seq<char>) -> Seq<char> {
    path.skip(after_last_separator(path, path.len() as int))
}

/// The key under which the storage service names a file of a snapshot:
/// the snapshot's storage prefix, `/`, and the file's path within the
/// snapshot.
pub fn snapshot_part_key(snapshot_path: &str, file: &str) -> (key: String)
    ensures
        key@ == snapshot_prefix(snapshot_path@) + seq!['/'] + file@,
{
    let p = chars_of(snapshot_path);
    let mut n: usize = p.len();
    while n >= 3 && !(p[n - 3] == ':' && p[n - 2] == ':' && p[n - 1] == '/')
        invariant
            n <= p.len(),
            after_last_separator(p@, p.len() as int) == after_last_separator(p@, n as int),
        decreases n,
    {
        n = n - 1;
    }
    let start: usize = if n >= 3 { n } else { 0 };
    let mut key = string_from_chars(&chars_from(&p, start));
    push_char(&mut key, '/');
    key.append(file);
    key
}

/// The name of a snapshot made from an EdgeFirst Arrow file and its image
/// archive: the description when there is one, else the Arrow file's stem,
/// else `edgefirst_dataset`.
pub open spec fn snapshot_name_for(description: Option<Seq<char>>, arrow_path: Seq<char>) -> Seq<char> {
    match description {
        Some(d) => d,
        None => match file_stem(arrow_path) {
            Some(s) => s,
            None => "edgefirst_dataset"@,
        },
    }
}

/// Name a snapshot of an EdgeFirst Arrow file (see [`snapshot_name_for`]).
pub fn snapshot_name(description: Option<&str>, arrow_path: &str) -> (r: String)
    ensures
        r@ == snapshot_name_for(
            match description {
                Some(d) => Some(d@),
                None => None,
            },
            arrow_path@,
        ),
{
    match description {
        Some(d) => String::from_str(d),
        None => match file_stem_of(&chars_of(arrow_path)) {
            Some(s) => string_from_chars(&s),
            None => String::from_str("edgefirst_dataset"),
        },
    }
}

/// The payload of a token: its middle `.`-separated part decoded from
/// base64, when the token has exactly three parts and that part decodes.
pub open spec fn token_payload(token: Seq<char>) -> Option<Seq<u8>> {
    let parts = dot_parts(token);
    if parts.len() != 3 {
        None
    } else {
        base64_decode(parts[1])
    }
}

/// Whether `r` is the text field `field` of a token's payload: the payload
/// must be a JSON object whose `field` is a string; a token without a
/// payload, or a field that is absent or not a string, makes an invalid
/// token, and a payload that is not JSON reports the parser's message.
pub open spec fn token_field_outcome(token: Seq<char>, field: Seq<char>, r: Result<String, Error>) -> bool {
    match token_payload(token) {
        None => r matches Err(Error::InvalidToken),
        Some(bytes) => match json_text_field(bytes, field) {
            Err(m) => r matches Err(Error::JsonError(e)) && e@ == m,
            Ok(Some(Some(t))) => r matches Ok(v) && v@ == t,
            Ok(_) => r matches Err(Error::InvalidToken),
        },
    }
}

/// Splits `t` at its `.` characters.
fn split_dots(t: &Vec<char>) -> (r: Vec<Vec<char>>)
    ensures
        r@.map_values(|p: Vec<char>| p@) == dot_parts(t@),
{
    let mut parts: Vec<Vec<char>> = Vec::new();
    let mut cur: Vec<char> = Vec::new();
    let mut i: usize = 0;
    while i < t.len()
        invariant
            i <= t.len(),
            (parts@.map_values(|p: Vec<char>| p@), cur@) == dot_scan(t@, i as int),
        decreases t.len() - i,
    {
        let ghost before = parts@.map_values(|p: Vec<char>| p@);
        if t[i] == '.' {
            let done = cur;
            cur = Vec::new();
            parts.push(done);
            assert(parts@.map_values(|p: Vec<char>| p@) =~= before.push(done@));
        } else {
            cur.push(t[i]);
        }
        i = i + 1;
    }
    let ghost before = parts@.map_values(|p: Vec<char>| p@);
    let last = cur;
    parts.push(last);
    assert(parts@.map_values(|p: Vec<char>| p@) =~= before.push(last@));
    parts
}

/// The payload of a token, decoded.
fn decode_token_payload(token: &str) -> (r: Option<Vec<u8>>)
    ensures
        token_payload(token@) == match r {
            Some(b) => Some(b@),
            None => None::<Seq<u8>>,
        },
{
    let parts = split_dots(&chars_of(token));
    if parts.len() != 3 {
        return None;
    }
    let middle = string_from_chars(&parts[1]);
    decode_base64(middle.as_str())
}

/// Read a text field of a token's payload.
pub fn token_text_field(token: &str, field: &str) -> (r: Result<String, Error>)
    ensures
        token_field_outcome(token@, field@, r),
{
    let bytes = match decode_token_payload(token) {
        Some(b) => b,
        None => {
            return Err(Error::InvalidToken);
        },
    };
    match json_object_text_field(&bytes, field) {
        Ok(Some(Some(t))) => Ok(t),
        Ok(_) => Err(Error::InvalidToken),
        Err(m) => Err(Error::JsonError(m)),
    }
}

/// The server a token was issued by: the `server` field of its payload.
pub fn server_from_token(token: &str) -> (r: Result<String, Error>)
    ensures
        token_field_outcome(token@, "server"@, r),
{
    token_text_field(token, "server")
}

/// The address a client switches to when given a token
/// (`Client::with_token`): none for an empty token (the client is kept),
/// else `https://{server}.edgefirst.studio` for the token's server.
pub fn token_server_url(token: &str) -> (r: Result<Option<String>, Error>)
    ensures
        token@.len() == 0 ==> r matches Ok(None),
        token@.len() > 0 ==> match r {
            Ok(Some(u)) => exists|s: String| #[trigger] token_field_outcome(token@, "server"@, Ok(s))
                && u@ == "https://"@ + s@ + ".edgefirst.studio"@,
            Ok(None) => false,
            Err(e) => token_field_outcome(token@, "server"@, Err(e)),
        },
{
    broadcast use vstd::string::group_string_axioms;
    if token.is_empty() {
        return Ok(None);
    }
    let server = match server_from_token(token) {
        Ok(s) => s,
        Err(e) => {
            return Err(e);
        },
    };
    let mut url = String::from_str("https://");
    url.append(server.as_str());
    url.append(".edgefirst.studio");
    proof {
        assert(token_field_outcome(token@, "server"@, Ok(server)));
    }
    Ok(Some(url))
}

/// The user name in a token: the `username` field of its payload; an
/// empty token has none.
pub fn token_username(token: &str) -> (r: Result<String, Error>)
    ensures
        token@.len() == 0 ==> r matches Err(Error::EmptyToken),
        token@.len() > 0 ==> token_field_outcome(token@, "username"@, r),
{
    broadcast use vstd::string::group_string_axioms;
    if token.is_empty() {
        return Err(Error::EmptyToken);
    }
    token_text_field(token, "username")
}

/// What the JSON object in `payload` holds under `field` read as an
/// integer: the text of the parse error, nothing when the field is absent,
/// or the field's value when it is a number that fits an `i64` (`None`
/// when it is another kind of value).
pub uninterp spec fn json_integer_field(payload: Seq<u8>, field: Seq<char>) -> Result<Option<Option<i64>>, Seq<char>>;

/// Reads an integer field of a JSON object (crate `serde_json`:
/// `from_slice` into a map of values, then `get` and `as_i64`). Stated: the
/// outcome is the named reading of the payload and field; JSON syntax is
/// left unsaid.
#[verifier::external_body]
fn json_object_integer_field(payload: &Vec<u8>, field: &str) -> (r: Result<Option<Option<i64>>, String>)
    ensures
        json_integer_field(payload@, field@) == match r {
            Ok(v) => Ok(v),
            Err(m) => Err(m@),
        },
{
    match serde_json::from_slice::<std::collections::HashMap<String, serde_json::Value>>(payload) {
        Ok(map) => Ok(match map.get(field) {
            Some(v) => Some(v.as_i64()),
            None => None,
        }),
        Err(e) => Err(e.to_string()),
    }
}

/// Whether a UTC date and time can stand for the instant `secs` seconds
/// after the Unix epoch: from the first second of January 1 of the year
/// -262143 to the last second of December 31 of the year 262142.
pub open spec fn utc_timestamp_in_range(secs: i64) -> bool {
    -8334601228800 <= secs <= 8210266876799
}

/// Whether `secs` is a UTC instant (crate `chrono`:
/// `DateTime::from_timestamp(secs, 0)` gives a value, which it does exactly
/// when the day falls within the years its calendar spans).
#[verifier::external_body]
fn utc_timestamp_valid(secs: i64) -> (b: bool)
    ensures
        b == utc_timestamp_in_range(secs),
{
    chrono::DateTime::from_timestamp(secs, 0).is_some()
}

/// Whether `r` is the expiry of a token: the `exp` field of its payload,
/// which must be an integer number of seconds since the Unix epoch that a
/// UTC date can hold; anything else makes an invalid token, and a payload
/// that is not JSON reports the parser's message.
pub open spec fn token_expiration_outcome(token: Seq<char>, r: Result<i64, Error>) -> bool {
    match token_payload(token) {
        None => r matches Err(Error::InvalidToken),
        Some(bytes) => match json_integer_field(bytes, "exp"@) {
            Err(m) => r matches Err(Error::JsonError(e)) && e@ == m,
            Ok(Some(Some(t))) => if utc_timestamp_in_range(t) {
                r matches Ok(v) && v == t
            } else {
                r matches Err(Error::InvalidToken)
            },
            Ok(_) => r matches Err(Error::InvalidToken),
        },
    }
}

/// When a token expires, in seconds since the Unix epoch (UTC); an empty
/// token has no expiry.
pub fn token_expiration(token: &str) -> (r: Result<i64, Error>)
    ensures
        token@.len() == 0 ==> r matches Err(Error::EmptyToken),
        token@.len() > 0 ==> token_expiration_outcome(token@, r),
{
    broadcast use vstd::string::group_string_axioms;
    if token.is_empty() {
        return Err(Error::EmptyToken);
    }
    let bytes = match decode_token_payload(token) {
        Some(b) => b,
        None => {
            return Err(Error::InvalidToken);
        },
    };
    match json_object_integer_field(&bytes, "exp") {
        Ok(Some(Some(t))) => {
            if utc_timestamp_valid(t) {
                Ok(t)
            } else {
                Err(Error::InvalidToken)
            }
        },
        Ok(_) => Err(Error::InvalidToken),
        Err(m) => Err(Error::JsonError(m)),
    }
}

/// The id of the first group in `groups` called `name`, if any: how a
/// client finds a group before it asks the server to create one, and again
/// among the groups that the server reports as created.
pub fn group_id_named(groups: &Vec<Group>, name: &str) -> (r: Option<u64>)
    ensures
        match r {
            Some(id) => exists|i: int|
                0 <= i < groups.len() && #[trigger] groups@[i].name@ == name@
                    && groups@[i].id == id
                    && forall|j: int| 0 <= j < i ==> groups@[j].name@ != name@,
            None => forall|i: int| 0 <= i < groups.len() ==> #[trigger] groups@[i].name@ != name@,
        },
{
    let target = chars_of(name);
    let mut i: usize = 0;
    while i < groups.len()
        invariant
            i <= groups.len(),
            target@ == name@,
            forall|j: int| 0 <= j < i ==> #[trigger] groups@[j].name@ != name@,
        decreases groups.len() - i,
    {
        let candidate = chars_of(groups[i].name.as_str());
        if same_chars(&candidate, &target) {
            return Some(groups[i].id);
        }
        i = i + 1;
    }
    None
}

/// Whether `c` is white space in Unicode's sense (the `White_Space`
/// property): tab, line feed, vertical tab, form feed, carriage return,
/// space, next line, no-break space, ogham space mark, the spaces
/// U+2000 to U+200A, line and paragraph separators, narrow no-break space,
/// medium mathematical space and ideographic space.
pub open spec fn char_is_whitespace(c: char) -> bool {
    let u = c as u32;
    ||| 0x9 <= u <= 0xd
    ||| u == 0x20
    ||| u == 0x85
    ||| u == 0xa0
    ||| u == 0x1680
    ||| 0x2000 <= u <= 0x200a
    ||| u == 0x2028
    ||| u == 0x2029
    ||| u == 0x202f
    ||| u == 0x205f
    ||| u == 0x3000
}

/// Decides whether `c` is white space (std `char::is_whitespace`). Stated:
/// the result is [`char_is_whitespace`], the Unicode `White_Space`
/// property.
#[verifier::external_body]
fn is_whitespace(c: char) -> (b: bool)
    ensures
        b == char_is_whitespace(c),
{
    c.is_whitespace()
}

/// `s` without leading white space.
pub open spec fn trim_start_ws(s: Seq<char>) -> Seq<char>
    decreases s.len(),
{
    if s.len() > 0 && char_is_whitespace(s[0]) {
        trim_start_ws(s.drop_first())
    } else {
        s
    }
}

/// `s` without trailing white space.
pub open spec fn trim_end_ws(s: Seq<char>) -> Seq<char>
    decreases s.len(),
{
    if s.len() > 0 && char_is_whitespace(s.last()) {
        trim_end_ws(s.drop_last())
    } else {
        s
    }
}

/// `s` without leading and trailing white space (`str::trim`).
pub open spec fn trim_ws(s: Seq<char>) -> Seq<char> {
    trim_end_ws(trim_start_ws(s))
}

/// A character that may not stand in a file name component, replaced.
pub open spec fn safe_char(c: char) -> char {
    if c == '/' || c == '\\' || c == ':' || c == '*' || c == '?' || c == '"' || c == '<' || c == '>'
        || c == '|' {
        '_'
    } else {
        c
    }
}

/// A name made safe as one path component: trimmed, reduced to its file
/// name (a name with none, such as `..`, is kept whole), with the
/// characters `/ \ : * ? " < > |` replaced by `_`; an empty result becomes
/// `unnamed`.
pub open spec fn sanitized_component(name: Seq<char>) -> Seq<char> {
    let t = trim_ws(name);
    let comp = match file_name(t) {
        Some(c) => c,
        None => t,
    };
    let s = comp.map_values(|c: char| safe_char(c));
    if t.len() == 0 || s.len() == 0 {
        "unnamed"@
    } else {
        s
    }
}

/// Whether `s` is one path component: it is not empty and holds none of
/// the characters `/ \ : * ? " < > |`.
pub open spec fn safe_component(s: Seq<char>) -> bool {
    &&& s.len() > 0
    &&& forall|i: int| 0 <= i < s.len() ==> {
        let c = #[trigger] s[i];
        c != '/' && c != '\\' && c != ':' && c != '*' && c != '?' && c != '"' && c != '<'
            && c != '>' && c != '|'
    }
}

/// A sanitised name is one path component: never empty and without any of
/// the characters `/ \ : * ? " < > |`.
pub proof fn lemma_sanitized_component_is_safe(name: Seq<char>)
    ensures
        safe_component(sanitized_component(name)),
{
    reveal_strlit("unnamed");
    assert("unnamed"@.len() == 7);
}

/// `s` without leading and trailing white space.
fn trim(s: &Vec<char>) -> (r: Vec<char>)
    ensures
        r@ == trim_ws(s@),
{
    let mut start: usize = 0;
    assert(s@.skip(0) =~= s@);
    while start < s.len() && is_whitespace(s[start])
        invariant
            start <= s.len(),
            trim_start_ws(s@.skip(start as int)) == trim_start_ws(s@),
        decreases s.len() - start,
    {
        assert(s@.skip(start as int).drop_first() =~= s@.skip(start + 1));
        start = start + 1;
    }
    let ghost rest = s@.skip(start as int);
    assert(trim_start_ws(s@) == rest);
    let mut end: usize = s.len();
    assert(rest.take(end - start) =~= rest);
    while end > start && is_whitespace(s[end - 1])
        invariant
            start <= end <= s.len(),
            rest == s@.skip(start as int),
            trim_end_ws(rest.take(end - start)) == trim_end_ws(rest),
        decreases end,
    {
        assert(rest.take(end - start).drop_last() =~= rest.take(end - 1 - start));
        end = end - 1;
    }
    let mut out: Vec<char> = Vec::new();
    let mut k: usize = start;
    while k < end
        invariant
            start <= k <= end <= s.len(),
            out@ == s@.subrange(start as int, k as int),
        decreases end - k,
    {
        out.push(s[k]);
        assert(s@.subrange(start as int, k as int).push(s@[k as int]) =~= s@.subrange(start as int, k + 1));
        k = k + 1;
    }
    assert(out@ =~= rest.take(end - start));
    out
}

/// Make a name safe to use as one path component.
pub fn sanitize_path_component(name: &str) -> (r: String)
    ensures
        r@ == sanitized_component(name@),
        safe_component(r@),
{
    proof {
        lemma_sanitized_component_is_safe(name@);
    }
    let t = trim(&chars_of(name));
    if t.len() == 0 {
        return String::from_str("unnamed");
    }
    let comp = match file_name_of(&t) {
        Some(c) => c,
        None => t,
    };
    let mut out: Vec<char> = Vec::new();
    let mut i: usize = 0;
    while i < comp.len()
        invariant
            i <= comp.len(),
            out@ =~= comp@.take(i as int).map_values(|c: char| safe_char(c)),
        decreases comp.len() - i,
    {
        let c = comp[i];
        let safe = if c == '/' || c == '\\' || c == ':' || c == '*' || c == '?' || c == '"' || c == '<'
            || c == '>' || c == '|' {
            '_'
        } else {
            c
        };
        out.push(safe);
        assert(comp@.take(i + 1).map_values(|c: char| safe_char(c)) =~= comp@.take(i as int).map_values(
            |c: char| safe_char(c),
        ).push(safe));
        i = i + 1;
    }
    assert(comp@.take(comp.len() as int) =~= comp@);
    if out.len() == 0 {
        return String::from_str("unnamed");
    }
    string_from_chars(&out)
}

/// The text of an optional name, when there is one.
pub open spec fn opt_text(s: Option<&str>) -> Option<Seq<char>> {
    match s {
        Some(t) => Some(t@),
        None => None,
    }
}

/// Where a downloaded sample file goes: the sub-directory (the sanitized
/// sequence name, unless flattening or outside a sequence) and the file
/// name. An image keeps its sanitized image name, prefixed for its
/// sequence when flattening; an image without a name, or another file,
/// is named after the sanitized sample name (`unknown` when it has none)
/// with the file's extension, other files being prefixed like images.
pub open spec fn download_location(
    sample_name: Option<Seq<char>>,
    image_name: Option<Seq<char>>,
    sequence_name: Option<Seq<char>>,
    frame: Option<u32>,
    flatten: bool,
    is_image: bool,
    ext: Seq<char>,
) -> (Option<Seq<char>>, Seq<char>) {
    let seq_dir = match sequence_name {
        Some(n) => Some(sanitized_component(n)),
        None => None,
    };
    let sample = match sample_name {
        Some(n) => sanitized_component(n),
        None => "unknown"@,
    };
    let base = sample + "."@ + ext;
    let file = if is_image {
        match image_name {
            Some(n) => flattened_name(sanitized_component(n), flatten, seq_dir, frame),
            None => base,
        }
    } else {
        flattened_name(base, flatten, seq_dir, frame)
    };
    (if flatten { None } else { seq_dir }, file)
}

/// Decide where a downloaded sample file goes (see [`download_location`]).
pub fn download_file_location(
    sample_name: Option<&str>,
    image_name: Option<&str>,
    sequence_name: Option<&str>,
    frame_number: Option<u32>,
    flatten: bool,
    is_image: bool,
    file_ext: &str,
) -> (r: (Option<String>, String))
    ensures
        ({
            let (dir, file) = download_location(
                opt_text(sample_name),
                opt_text(image_name),
                opt_text(sequence_name),
                frame_number,
                flatten,
                is_image,
                file_ext@,
            );
            &&& match r.0 {
                Some(d) => dir == Some(d@),
                None => dir is None,
            }
            &&& r.1@ == file
        }),
        r.0 matches Some(d) ==> safe_component(d@),
{
    let seq_dir = match sequence_name {
        Some(n) => Some(sanitize_path_component(n)),
        None => None,
    };
    let sample = match sample_name {
        Some(n) => sanitize_path_component(n),
        None => String::from_str("unknown"),
    };
    let mut base = sample;
    base.append(".");
    base.append(file_ext);
    let file = if is_image {
        match image_name {
            Some(n) => {
                let img = sanitize_path_component(n);
                build_filename(img.as_str(), flatten, seq_dir.as_ref(), frame_number)
            },
            None => base,
        }
    } else {
        build_filename(base.as_str(), flatten, seq_dir.as_ref(), frame_number)
    };
    let dir = if flatten {
        None
    } else {
        seq_dir
    };
    (dir, file)
}

/// Progress of a long-running operation: items or bytes done out of a
/// total, and the phase it is in (a new phase starts when the status
/// changes).
#[derive(Clone, Debug)]
pub struct Progress {
    pub current: usize,
    pub total: usize,
    pub status: Option<String>,
}

/// The number of concurrent tasks for a machine with `cpus` processors
/// when none is configured: half the processors, at least 2 and at most 8.
pub open spec fn default_tasks(cpus: nat) -> nat {
    let half = cpus / 2;
    if half < 2 {
        2
    } else if half > 8 {
        8
    } else {
        half
    }
}

/// The default number of concurrent tasks for `cpus` processors.
pub fn default_task_count(cpus: usize) -> (n: usize)
    ensures
        n == default_tasks(cpus as nat),
        2 <= n <= 8,
{
    let half = cpus / 2;
    if half < 2 {
        2
    } else if half > 8 {
        8
    } else {
        half
    }
}

/// The value of decimal digits accumulated onto `acc`, if they are all
/// digits and the value stays within `u32`.
pub open spec fn decimal_fold(digits: Seq<char>, acc: nat) -> Option<nat>
    decreases digits.len(),
{
    if digits.len() == 0 {
        Some(acc)
    } else if '0' <= digits[0] <= '9' && acc * 10 + (digits[0] as int - 48) <= u32::MAX {
        decimal_fold(digits.drop_first(), (acc * 10 + (digits[0] as int - 48)) as nat)
    } else {
        None
    }
}

/// What `s.parse::<u32>()` accepts: an optional `+` and one or more
/// decimal digits, with a value that fits in `u32`.
pub open spec fn parse_u32_text(s: Seq<char>) -> Option<u32> {
    let digits = if s.len() > 0 && s[0] == '+' { s.drop_first() } else { s };
    if digits.len() == 0 {
        None
    } else {
        match decimal_fold(digits, 0) {
            Some(v) => Some(v as u32),
            None => None,
        }
    }
}

/// Parses `s` as `s.parse::<u32>()` does.
pub fn parse_u32(s: &Vec<char>) -> (r: Option<u32>)
    ensures
        r == parse_u32_text(s@),
{
    let mut i: usize = 0;
    if s.len() > 0 && s[0] == '+' {
        i = 1;
    }
    let ghost digits = s@.skip(i as int);
    assert(digits =~= (if s@.len() > 0 && s@[0] == '+' { s@.drop_first() } else { s@ }));
    if i == s.len() {
        return None;
    }
    let mut acc: u32 = 0;
    while i < s.len()
        invariant
            i <= s.len(),
            digits.len() > 0,
            parse_u32_text(s@) == (match decimal_fold(digits, 0) {
                Some(v) => Some(v as u32),
                None => None,
            }),
            decimal_fold(digits, 0) == decimal_fold(s@.skip(i as int), acc as nat),
        decreases s.len() - i,
    {
        let c = s[i];
        assert(s@.skip(i as int)[0] == c);
        assert(s@.skip(i as int).drop_first() =~= s@.skip(i + 1));
        if c < '0' || c > '9' {
            return None;
        }
        let d = (c as u32) - 48;
        if acc > 429496729 || (acc == 429496729 && d > 5) {
            assert(acc * 10 + d > u32::MAX);
            return None;
        }
        acc = acc * 10 + d;
        i = i + 1;
    }
    assert(s@.skip(i as int) =~= Seq::<char>::empty());
    Some(acc)
}

/// The frame number in the name of an image of a sequence: the image
/// file's stem must be the sequence name, `_`, and a number.
pub open spec fn frame_of_image(image_name: Option<Seq<char>>, sequence_name: Option<Seq<char>>) -> Option<u32> {
    match (image_name, sequence_name) {
        (Some(name), Some(seq)) => match file_stem(name) {
            Some(stem) => {
                let p = seq.push('_');
                if is_prefix(p, stem) {
                    parse_u32_text(stem.skip(p.len() as int))
                } else {
                    None
                }
            },
            None => None,
        },
        _ => None,
    }
}

/// Parse the frame number from a sequence image's name.
pub fn parse_frame_from_image_name(image_name: Option<&String>, sequence_name: Option<&String>) -> (r: Option<u32>)
    ensures
        r == frame_of_image(
            match image_name {
                Some(n) => Some(n@),
                None => None,
            },
            match sequence_name {
                Some(s) => Some(s@),
                None => None,
            },
        ),
{
    let sequence = match sequence_name {
        Some(s) => s,
        None => {
            return None;
        },
    };
    let name = match image_name {
        Some(n) => n,
        None => {
            return None;
        },
    };
    let stem = match file_stem_of(&chars_of(name.as_str())) {
        Some(s) => s,
        None => {
            return None;
        },
    };
    let mut prefix = chars_of(sequence.as_str());
    prefix.push('_');
    if !starts_with(&stem, &prefix) {
        return None;
    }
    let rest = crate::text::chars_from(&stem, prefix.len());
    parse_u32(&rest)
}

} // verus!
