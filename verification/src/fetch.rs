//! Rules of the HTTP fetch tool: which requests are made, and how much of a
//! response is handed on.

use crate::text;
use crate::text::{
    ascii_lower, begins_with, chars_of, push_decimal, same_text, slice_text, trim, uppercase, width,
};
use vstd::prelude::*;
use vstd::string::*;

verus! {

/// Largest response body that is handed on (200 KB).
pub const MAX_RESPONSE_BODY_LEN: usize = 204_800;

/// Input arguments of the `fetch_url` tool.
#[derive(Debug)]
pub struct FetchUrlArgs {
    /// The URL to fetch (http:// or https:// only).
    pub url: String,
    /// HTTP method. Defaults to "GET".
    pub method: Option<String>,
    /// Optional HTTP headers as key-value pairs.
    pub headers: Option<Vec<(String, String)>>,
    /// Optional request body (for POST/PUT/PATCH).
    pub body: Option<String>,
}

/// The structured response.
#[derive(Debug)]
pub struct FetchResult {
    pub status: u16,
    pub headers: Vec<(String, String)>,
    pub body: String,
    pub truncated: bool,
}

/// Whether a flag is left out of a response.
pub fn is_false(b: &bool) -> (r: bool)
    ensures
        r == !*b,
{
    !*b
}

/// Whether a URL has a scheme that is fetched, in any mixture of cases.
pub open spec fn web_url(url: Seq<char>) -> bool {
    let lowered = text::ascii_lowered(url);
    text::begins(lowered, "http://"@) || text::begins(lowered, "https://"@)
}

/// Rejects empty URLs and schemes other than HTTP and HTTPS.
pub fn validate_url(url: &str) -> (r: Result<(), &'static str>)
    ensures
        match r {
            Ok(_) => web_url(url@),
            Err(error) => !web_url(url@) && error@ == (if url@.len() == 0 {
                "URL cannot be empty"@
            } else {
                "Only http:// and https:// URLs are supported"@
            }),
        },
{
    let chars = chars_of(url);
    proof {
        reveal_strlit("http://");
        reveal_strlit("https://");
    }
    if chars.len() == 0 {
        return Err("URL cannot be empty");
    }
    let mut lowered: Vec<char> = Vec::new();
    let mut i: usize = 0;
    while i < chars.len()
        invariant
            i <= chars@.len(),
            lowered@.len() == i,
            forall|j: int| 0 <= j < i ==> #[trigger] lowered@[j] == text::ascii_lower_of(chars@[j]),
        decreases chars@.len() - i,
    {
        lowered.push(ascii_lower(chars[i]));
        i = i + 1;
    }
    assert(lowered@ =~= text::ascii_lowered(url@));
    if begins_with(&lowered, &chars_of("http://")) || begins_with(&lowered, &chars_of("https://")) {
        Ok(())
    } else {
        Err("Only http:// and https:// URLs are supported")
    }
}

/// Allowed HTTP methods.
#[derive(Clone, Copy, Debug, PartialEq, Eq, Structural)]
pub enum HttpMethod {
    Get,
    Post,
    Put,
    Delete,
    Patch,
    Head,
    Options,
}

impl HttpMethod {
    pub open spec fn name(self) -> Seq<char> {
        match self {
            HttpMethod::Get => "GET"@,
            HttpMethod::Post => "POST"@,
            HttpMethod::Put => "PUT"@,
            HttpMethod::Delete => "DELETE"@,
            HttpMethod::Patch => "PATCH"@,
            HttpMethod::Head => "HEAD"@,
            HttpMethod::Options => "OPTIONS"@,
        }
    }

    pub fn as_str(&self) -> (r: &'static str)
        ensures
            r@ == self.name(),
    {
        match self {
            HttpMethod::Get => "GET",
            HttpMethod::Post => "POST",
            HttpMethod::Put => "PUT",
            HttpMethod::Delete => "DELETE",
            HttpMethod::Patch => "PATCH",
            HttpMethod::Head => "HEAD",
            HttpMethod::Options => "OPTIONS",
        }
    }

    /// The method of a name in upper case.
    pub fn of_name(name: &str) -> (r: Option<HttpMethod>)
        ensures
            match r {
                Some(method) => method.name() == name@,
                None => forall|method: HttpMethod| #[trigger] method.name() != name@,
            },
    {
        if same_text(name, "GET") {
            Some(HttpMethod::Get)
        } else if same_text(name, "POST") {
            Some(HttpMethod::Post)
        } else if same_text(name, "PUT") {
            Some(HttpMethod::Put)
        } else if same_text(name, "DELETE") {
            Some(HttpMethod::Delete)
        } else if same_text(name, "PATCH") {
            Some(HttpMethod::Patch)
        } else if same_text(name, "HEAD") {
            Some(HttpMethod::Head)
        } else if same_text(name, "OPTIONS") {
            Some(HttpMethod::Options)
        } else {
            None
        }
    }

    /// The method of a name in any case; others are refused.
    pub fn from_str(s: &str) -> (r: Result<HttpMethod, String>)
        ensures
            match r {
                Ok(method) => method.name() == text::uppercase_of(s@),
                Err(error) => error@ == "unsupported HTTP method: "@ + s@ && forall|
                    method: HttpMethod,
                | #[trigger]
                    method.name() != text::uppercase_of(s@),
            },
    {
        let upper = uppercase(s);
        match HttpMethod::of_name(upper.as_str()) {
            Some(method) => Ok(method),
            None => {
                let mut error: String = "unsupported HTTP method: ".to_owned();
                error.append(s);
                Err(error)
            },
        }
    }
}

impl std::str::FromStr for HttpMethod {
    type Err = String;

    fn from_str(s: &str) -> (r: Result<HttpMethod, String>)
        ensures
            match r {
                Ok(method) => method.name() == text::uppercase_of(s@),
                Err(error) => error@ == "unsupported HTTP method: "@ + s@ && forall|
                    method: HttpMethod,
                | #[trigger]
                    method.name() != text::uppercase_of(s@),
            },
    {
        HttpMethod::from_str(s)
    }
}

/// No two methods share a name.
pub proof fn method_names_are_distinct(a: HttpMethod, b: HttpMethod)
    requires
        a.name() == b.name(),
    ensures
        a == b,
{
    reveal_strlit("GET");
    reveal_strlit("POST");
    reveal_strlit("PUT");
    reveal_strlit("DELETE");
    reveal_strlit("PATCH");
    reveal_strlit("HEAD");
    reveal_strlit("OPTIONS");
    let name = a.name();
    assert(name.len() > 2 && name[0] == a.name()[0] && name[1] == a.name()[1]);
    assert(name[0] == b.name()[0] && name[1] == b.name()[1] && name.len() == b.name().len());
}

// Response bodies.

/// Whether the first `k` characters are the most that fit `max_len` bytes.
pub open spec fn fits(body: Seq<char>, max_len: nat, k: int) -> bool {
    &&& 0 <= k <= body.len()
    &&& text::byte_len(body.take(k)) <= max_len
    &&& k < body.len() ==> text::byte_len(body.take(k + 1)) > max_len
}

pub open spec fn cut_body(body: Seq<char>, k: int) -> Seq<char> {
    body.take(k) + "\n\n[...truncated, "@ + text::decimal(text::byte_len(body)) + " bytes total]"@
}

/// Truncates a body to `max_len` bytes at a character boundary. Returns the
/// body and whether it was truncated.
pub fn truncate_body(body: String, max_len: usize) -> (r: (String, bool))
    ensures
        if text::byte_len(body@) <= max_len {
            r.0@ == body@ && !r.1
        } else {
            r.1 && exists|k: int| #[trigger]
                fits(body@, max_len as nat, k) && r.0@ == cut_body(body@, k)
        },
{
    let length: usize = body.as_str().as_bytes().len();
    if length <= max_len {
        return (body, false);
    }
    let chars = chars_of(body.as_str());
    let mut k: usize = 0;
    let mut used: usize = 0;
    proof {
        assert(body@.take(0) =~= Seq::<char>::empty());
        assert(body@.take(body@.len() as int) =~= body@);
    }
    while k < chars.len() && width(chars[k]) <= max_len - used
        invariant
            k <= chars@.len(),
            chars@ == body@,
            used <= max_len,
            used == text::byte_len(body@.take(k as int)),
        decreases chars@.len() - k,
    {
        proof {
            text::lemma_byte_len_push(body@.take(k as int), body@[k as int]);
            assert(body@.take(k + 1) =~= body@.take(k as int).push(body@[k as int]));
        }
        used = used + width(chars[k]);
        k = k + 1;
    }
    proof {
        if k < chars@.len() {
            text::lemma_byte_len_push(body@.take(k as int), body@[k as int]);
            assert(body@.take(k + 1) =~= body@.take(k as int).push(body@[k as int]));
        }
        assert(fits(body@, max_len as nat, k as int));
    }
    let mut out = slice_text(&chars, 0, k);
    out.append("\n\n[...truncated, ");
    push_decimal(&mut out, length as u128);
    out.append(" bytes total]");
    assert(out@ =~= cut_body(body@, k as int));
    (out, true)
}

proof fn lemma_take_grows(body: Seq<char>, a: int, b: int)
    requires
        0 <= a <= b <= body.len(),
    ensures
        text::byte_len(body.take(a)) <= text::byte_len(body.take(b)),
    decreases b - a,
{
    if a < b {
        lemma_take_grows(body, a, b - 1);
        text::lemma_byte_len_push(body.take(b - 1), body[b - 1]);
        assert(body.take(b) =~= body.take(b - 1).push(body[b - 1]));
    }
}

/// Where a body is cut is fixed by the body and the limit.
pub proof fn cuts_are_unique(body: Seq<char>, max_len: nat, a: int, b: int)
    requires
        fits(body, max_len, a),
        fits(body, max_len, b),
    ensures
        a == b,
{
    if a < b {
        lemma_take_grows(body, a + 1, b);
    } else if b < a {
        lemma_take_grows(body, b + 1, a);
    }
}

/// HTTP client tools for fetching web resources.
#[derive(Debug)]
pub struct HttpTools;

impl HttpTools {
    /// URL and method of the request to make, or why none is made.
    pub fn fetch_url(&self, args: &FetchUrlArgs) -> (r: Result<(String, HttpMethod), String>)
        ensures
            ({
                let url = text::trimmed(args.url@);
                let wanted = text::uppercase_of(
                    match args.method {
                        Some(method) => method@,
                        None => "GET"@,
                    },
                );
                match r {
                    Ok((address, method)) => web_url(url) && address@ == url && method.name()
                        == wanted,
                    Err(error) => if !web_url(url) {
                        error@ == (if url.len() == 0 {
                            "URL cannot be empty"@
                        } else {
                            "Only http:// and https:// URLs are supported"@
                        })
                    } else {
                        error@ == "unsupported HTTP method: "@ + (match args.method {
                            Some(method) => method@,
                            None => "GET"@,
                        }) && forall|method: HttpMethod| #[trigger] method.name() != wanted
                    },
                }
            }),
    {
        let url = trim(&chars_of(args.url.as_str()));
        match validate_url(url.as_str()) {
            Ok(_) => {},
            Err(error) => {
                return Err(error.to_owned());
            },
        }
        let wanted: &str = match &args.method {
            Some(method) => method.as_str(),
            None => "GET",
        };
        match HttpMethod::from_str(wanted) {
            Ok(method) => Ok((url, method)),
            Err(error) => Err(error),
        }
    }

    /// The response as it is handed on.
    pub fn fetch_result(&self, status: u16, headers: Vec<(String, String)>, body: String) -> (r:
        FetchResult)
        ensures
            r.status == status,
            r.headers == headers,
            if text::byte_len(body@) <= MAX_RESPONSE_BODY_LEN {
                r.body@ == body@ && !r.truncated
            } else {
                r.truncated && exists|k: int| #[trigger]
                    fits(body@, MAX_RESPONSE_BODY_LEN as nat, k) && r.body@ == cut_body(body@, k)
            },
    {
        let (body, truncated) = truncate_body(body, MAX_RESPONSE_BODY_LEN);
        FetchResult { status, headers, body, truncated }
    }
}

} // verus!
