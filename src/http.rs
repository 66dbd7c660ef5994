use vstd::prelude::*;
use vstd::string::StringSliceAdditionalSpecFns;

verus! {

/// The page a request asks for.
#[derive(Clone, Copy, Debug, PartialEq, Eq, Structural)]
pub enum Page {
    Index,
    Math,
    NotFound,
}

/// Whether `s` begins with `p`.
pub open spec fn starts_with(s: Seq<u8>, p: Seq<u8>) -> bool {
    p.len() <= s.len() && s.subrange(0, p.len() as int) == p
}

/// The request line that asks for the index page.
pub open spec fn index_request() -> Seq<u8> {
    "GET / HTTP/1.1\r\n".spec_bytes()
}

/// The request line that asks for the math page.
pub open spec fn math_request() -> Seq<u8> {
    "GET /math HTTP/1.1\r\n".spec_bytes()
}

/// The page that a request asks for, by the start of what was read.
pub open spec fn page_of(request: Seq<u8>) -> Page {
    if starts_with(request, index_request()) {
        Page::Index
    } else if starts_with(request, math_request()) {
        Page::Math
    } else {
        Page::NotFound
    }
}

fn has_prefix(s: &[u8], p: &[u8]) -> (r: bool)
    ensures
        r == starts_with(s@, p@),
{
    if p.len() > s.len() {
        return false;
    }
    let mut i: usize = 0;
    while i < p.len()
        invariant
            p@.len() <= s@.len(),
            i <= p@.len(),
            s@.subrange(0, i as int) == p@.subrange(0, i as int),
        decreases p.len() - i,
    {
        if s[i] != p[i] {
            assert(s@.subrange(0, p@.len() as int)[i as int] != p@[i as int]);
            return false;
        }
        i = i + 1;
        assert(s@.subrange(0, i as int) =~= p@.subrange(0, i as int));
    }
    assert(p@.subrange(0, i as int) =~= p@);
    true
}

/// Chooses the page for a request from the first bytes read from it.
pub fn route(request: &[u8]) -> (r: Page)
    ensures
        r == page_of(request@),
{
    if has_prefix(request, "GET / HTTP/1.1\r\n".as_bytes()) {
        Page::Index
    } else if has_prefix(request, "GET /math HTTP/1.1\r\n".as_bytes()) {
        Page::Math
    } else {
        Page::NotFound
    }
}


/// The status line sent back for a page.
pub open spec fn status_of(page: Page) -> &'static str {
    match page {
        Page::Index => "HTTP/1.1 200 OK",
        Page::Math => "HTTP/1.1 200 OK",
        Page::NotFound => "HTTP/1.1 404 NOT FOUND",
    }
}

/// The file whose contents form the body sent back for a page.
pub open spec fn file_of(page: Page) -> &'static str {
    match page {
        Page::Index => "public/index.html",
        Page::Math => "public/math.html",
        Page::NotFound => "public/404.html",
    }
}

pub fn status_line(page: Page) -> (r: &'static str)
    ensures
        r == status_of(page),
{
    match page {
        Page::Index => "HTTP/1.1 200 OK",
        Page::Math => "HTTP/1.1 200 OK",
        Page::NotFound => "HTTP/1.1 404 NOT FOUND",
    }
}

pub fn file_name(page: Page) -> (r: &'static str)
    ensures
        r == file_of(page),
{
    match page {
        Page::Index => "public/index.html",
        Page::Math => "public/math.html",
        Page::NotFound => "public/404.html",
    }
}

/// Whether the answer for a page is held back for a while: the math page
/// stands for slow work.
pub fn is_slow(page: Page) -> (r: bool)
    ensures
        r == (page == Page::Math),
{
    match page {
        Page::Math => true,
        _ => false,
    }
}

/// The decimal digits of `n` in ASCII, most significant first, with no
/// leading zeros.
pub open spec fn decimal(n: nat) -> Seq<u8>
    decreases n,
{
    if n < 10 {
        seq![(48 + n) as u8]
    } else {
        decimal(n / 10).push((48 + n % 10) as u8)
    }
}

/// Appends the decimal digits of `n` to `out`.
pub fn push_decimal(out: &mut Vec<u8>, n: usize)
    ensures
        final(out)@ == old(out)@ + decimal(n as nat),
    decreases n,
{
    if n >= 10 {
        push_decimal(out, n / 10);
    }
    let d: u8 = (n % 10) as u8;
    out.push(48u8 + d);
    proof {
        if n < 10 {
            assert(decimal(n as nat) == seq![(48 + n) as u8]);
        }
    }
    assert(out@ =~= old(out)@ + decimal(n as nat));
}

fn push_bytes(out: &mut Vec<u8>, s: &[u8])
    ensures
        final(out)@ == old(out)@ + s@,
{
    let mut i: usize = 0;
    while i < s.len()
        invariant
            i <= s@.len(),
            out@ == old(out)@ + s@.subrange(0, i as int),
        decreases s.len() - i,
    {
        out.push(s[i]);
        i = i + 1;
        assert(out@ =~= old(out)@ + s@.subrange(0, i as int));
    }
    assert(s@.subrange(0, i as int) =~= s@);
}

/// The bytes of a response: the status line, a header that gives the
/// length of the body in bytes, an empty line, then the body.
pub open spec fn response(status: Seq<u8>, body: Seq<u8>) -> Seq<u8> {
    status + "\r\nContent-Length: ".spec_bytes() + decimal(body.len()) + "\r\n\r\n".spec_bytes() + body
}

/// Frames a response around `body` under the status line `status`.
pub fn build_response(status: &str, body: &[u8]) -> (r: Vec<u8>)
    ensures
        r@ == response(status.spec_bytes(), body@),
{
    let mut out: Vec<u8> = Vec::new();
    push_bytes(&mut out, status.as_bytes());
    push_bytes(&mut out, "\r\nContent-Length: ".as_bytes());
    push_decimal(&mut out, body.len());
    push_bytes(&mut out, "\r\n\r\n".as_bytes());
    push_bytes(&mut out, body);
    out
}

/// The whole answer to a request, given the contents of the page's file.
pub fn respond(page: Page, contents: &[u8]) -> (r: Vec<u8>)
    ensures
        r@ == response(status_of(page).spec_bytes(), contents@),
{
    build_response(status_line(page), contents)
}

} // verus!
