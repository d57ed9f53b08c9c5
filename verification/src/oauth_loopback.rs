//! The listener that the browser comes back to after a login: reading requests,
//! deciding what to do with them, and the pages and replies that are sent.

use vstd::prelude::*;

use crate::auth;
use crate::auth::login_callback_of;
use crate::number;
use crate::number::decimal_of;
use crate::split;
use crate::split::{lines_of, words_of};
use crate::text;
use crate::text::{
    find_text, has_prefix, has_text, join2, join3, same, text_from, text_until, trim_of,
    with_text_replaced, CharSet,
};
use crate::web;

verus! {

pub const LOOPBACK_ADDR: &'static str = "127.0.0.1:58473";

pub const REDIRECT_URI: &'static str = "http://127.0.0.1:58473/callback";

// ---------------------------------------------------------------------------
// Pages
// ---------------------------------------------------------------------------

/// The style of the pages.
pub const LOOPBACK_CSS: &'static str = r#"
:root { --bg-0:#101012; --ink:#f2efe8; --muted:#9a958c; --accent:#7dd3c0; --radius:8px; }
body { font-family:system-ui,sans-serif; background:var(--bg-0); color:var(--ink);
       display:grid; place-items:center; min-height:100vh; margin:0; }
.box { text-align:center; max-width:28rem; padding:2rem; }
.mark { width:4.5rem; height:4.5rem; border-radius:20%; }
.mark.pulse { animation:pulse 1.2s ease-in-out infinite; }
@keyframes pulse { 50% { opacity:0.55; } }
p { color:var(--muted); margin:1rem 0 0; }
.btn { display:inline-flex; align-items:center; justify-content:center;
       margin-top:1.25rem; padding:0.5rem 1rem; border-radius:var(--radius);
       border:1px solid var(--accent); background:var(--accent); color:var(--bg-0);
       font-size:0.875rem; font-weight:600; cursor:pointer; }
"#;

/// The mark of the program.
pub const MARK_SVG: &'static str = r##"<svg xmlns="http://www.w3.org/2000/svg" viewBox="0 0 512 512" class="mark" role="img" aria-label="qMonitor">
  <rect width="512" height="512" rx="112" ry="112" fill="#202023"/>
  <g transform="translate(256 256) scale(0.87) translate(-256 -256)">
    <g transform="translate(55.15 55.15) scale(1.10059)" fill-rule="evenodd">
      <path fill="#F2EFE8" d="m323.285 297.021-36.426-39.312c15.271-21.152 24.275-47.127 24.275-75.209 0-71.043-57.591-128.634-128.634-128.634S53.866 111.457 53.866 182.5 111.457 311.134 182.5 311.134c7.314 0 14.478-.629 21.458-1.802l39.737 44.054c-19.121 6.85-39.718 10.6-61.195 10.6-100.232 0-181.486-81.254-181.486-181.486S82.268 1.014 182.5 1.014 363.986 82.268 363.986 182.5c0 43.426-15.261 83.284-40.701 114.521Z"/>
      <path fill="#EE7016" d="M185 245h64.1L351 353.1l-66.819 1.857z"/>
    </g>
  </g>
</svg>"##;

/// What the page says that finishes a login in the browser.
pub const CALLBACK_BODY: &'static str = r##"
<p id="msg">Finishing login…</p>
<script>
  (async () => {
    const query = location.search.startsWith('?') ? location.search.slice(1) : '';
    const params = new URLSearchParams(query);
    const code = params.get('code');
    const state = params.get('state');
    const err = params.get('error');
    const el = document.getElementById('msg');
    if (err) {
      el.textContent = 'Authorization declined or failed (' + err + ').';
      return;
    }
    if (!code || !state) {
      el.textContent = 'No authorization code in this URL. Copy the full URL into qMonitor.';
      return;
    }
    try {
      const res = await fetch('/callback/complete', {
        method: 'POST',
        headers: { 'Content-Type': 'application/json' },
        body: JSON.stringify({ code, state })
      });
      if (!res.ok) throw new Error('bad status');
      el.textContent = 'Logged in — you can close this tab and return to qMonitor.';
    } catch (e) {
      el.textContent = 'Could not reach qMonitor. Paste the callback URL into the app.';
    }
  })();
</script>"##;

/// What the page says after a login.
pub const SUCCESS_BODY: &'static str = r##"
<p>Login successful.</p>
<button class="btn" type="button" onclick="window.close()">Return to qMonitor</button>"##;

/// A page with this title and content.
pub open spec fn page(title: Seq<char>, inner: Seq<char>) -> Seq<char> {
    "<!DOCTYPE html>\n<html lang=\"en\"><head><meta charset=\"utf-8\"/><title>"@ + title
        + "</title><style>"@ + LOOPBACK_CSS@ + "</style></head><body><div class=\"box\">"@ + inner
        + "</div></body></html>"@
}

fn loopback_page(title: &str, inner: &str) -> (r: String)
    ensures
        r@ == page(title@, inner@),
{
    let mut html = "<!DOCTYPE html>\n<html lang=\"en\"><head><meta charset=\"utf-8\"/><title>".to_owned();
    html.append(title);
    html.append("</title><style>");
    html.append(LOOPBACK_CSS);
    html.append("</style></head><body><div class=\"box\">");
    html.append(inner);
    html.append("</div></body></html>");
    html
}

/// The page that finishes a login in the browser. Its mark pulses.
pub open spec fn callback_page() -> Seq<char> {
    page(
        "qMonitor login"@,
        text::replace(MARK_SVG@, "class=\"mark\""@, "class=\"mark pulse\""@) + CALLBACK_BODY@,
    )
}

/// The page that finishes a login in the browser.
pub fn callback_html() -> (r: String)
    ensures
        r@ == callback_page(),
{
    proof {
        reveal_strlit("class=\"mark\"");
    }
    let mark = with_text_replaced(MARK_SVG, "class=\"mark\"", "class=\"mark pulse\"");
    let inner = join2(mark.as_str(), CALLBACK_BODY);
    loopback_page("qMonitor login", inner.as_str())
}

/// The page after a login.
pub open spec fn success_page() -> Seq<char> {
    page("qMonitor"@, MARK_SVG@ + SUCCESS_BODY@)
}

/// The page after a login.
pub fn success_html() -> (r: String)
    ensures
        r@ == success_page(),
{
    let inner = join2(MARK_SVG, SUCCESS_BODY);
    loopback_page("qMonitor", inner.as_str())
}

/// A text with the characters that make tags escaped.
pub open spec fn escaped(s: Seq<char>) -> Seq<char> {
    text::replace(
        text::replace(text::replace(s, "&"@, "&amp;"@), "<"@, "&lt;"@),
        ">"@,
        "&gt;"@,
    )
}

/// A text with the characters that make tags escaped.
pub fn html_escape(s: &str) -> (r: String)
    ensures
        r@ == escaped(s@),
{
    proof {
        reveal_strlit("&");
        reveal_strlit("<");
        reveal_strlit(">");
    }
    let a = with_text_replaced(s, "&", "&amp;");
    let b = with_text_replaced(a.as_str(), "<", "&lt;");
    with_text_replaced(b.as_str(), ">", "&gt;")
}

/// The character does not occur.
pub open spec fn lacks(s: Seq<char>, c: char) -> bool {
    forall|i: int| 0 <= i < s.len() ==> #[trigger] s[i] != c
}

/// Replacing a character by a text that lacks it leaves none of it; and brings in
/// no character that neither text has.
proof fn lemma_replaced(s: Seq<char>, c: char, q: Seq<char>, d: char)
    ensures
        lacks(q, c) ==> lacks(text::replace(s, seq![c], q), c),
        lacks(s, d) && lacks(q, d) ==> lacks(text::replace(s, seq![c], q), d),
    decreases s.len(),
{
    if s.len() > 0 {
        let p = seq![c];
        assert(s.subrange(0, 1) == seq![s[0]]);
        assert(text::starts_with(s, p) == (s[0] == c)) by {
            assert(p[0] == c);
            assert(s.subrange(0, 1)[0] == s[0]);
        }
        lemma_replaced(s.skip(1), c, q, d);
        if lacks(s, d) {
            assert forall|i: int| 0 <= i < s.skip(1).len() implies #[trigger] s.skip(1)[i] != d by {
                assert(s.skip(1)[i] == s[i + 1]);
            }
        }
        let t = text::replace(s.skip(1), p, q);
        let r = text::replace(s, p, q);
        if s[0] == c {
            assert(s.skip(p.len() as int) == s.skip(1));
            assert(r == q + t);
        } else {
            assert(r == seq![s[0]] + t);
        }
        let head = if s[0] == c {
            q
        } else {
            seq![s[0]]
        };
        assert(r == head + t);
        if lacks(q, c) {
            assert forall|i: int| 0 <= i < r.len() implies #[trigger] r[i] != c by {
                if i < head.len() {
                    assert(r[i] == head[i]);
                } else {
                    assert(r[i] == t[i - head.len()]);
                }
            }
        }
        if lacks(s, d) && lacks(q, d) {
            assert forall|i: int| 0 <= i < r.len() implies #[trigger] r[i] != d by {
                if i < head.len() {
                    assert(r[i] == head[i]);
                    if s[0] != c {
                        assert(s[0] != d);
                    }
                } else {
                    assert(r[i] == t[i - head.len()]);
                }
            }
        }
    }
}

/// An escaped text holds no tag: neither bracket occurs in it.
pub proof fn law_escaped_has_no_tags(s: Seq<char>)
    ensures
        lacks(escaped(s), '<'),
        lacks(escaped(s), '>'),
{
    reveal_strlit("&");
    reveal_strlit("<");
    reveal_strlit(">");
    reveal_strlit("&amp;");
    reveal_strlit("&lt;");
    reveal_strlit("&gt;");
    assert("<"@ == seq!['<']);
    assert(">"@ == seq!['>']);
    let a = text::replace(s, "&"@, "&amp;"@);
    let b = text::replace(a, "<"@, "&lt;"@);
    lemma_replaced(a, '<', "&lt;"@, '<');
    lemma_replaced(b, '>', "&gt;"@, '<');
}

// ---------------------------------------------------------------------------
// Replies
// ---------------------------------------------------------------------------

/// A reply with this status and page. The length that it tells is that of the
/// page in bytes.
pub open spec fn html_reply(status: Seq<char>, body: Seq<char>) -> Seq<char> {
    "HTTP/1.1 "@ + status + "\r\nContent-Type: text/html; charset=utf-8\r\nContent-Length: "@
        + number::decimal(vstd::utf8::encode_utf8(body).len())
        + "\r\nConnection: close\r\n\r\n"@ + body
}

fn html_reply_of(status: &str, body: &str) -> (r: String)
    ensures
        r@ == html_reply(status@, body@),
{
    let bytes = body.as_bytes();
    let n: usize = bytes.len();
    let d = decimal_of(n as u64);
    let mut t = "HTTP/1.1 ".to_owned();
    t.append(status);
    t.append("\r\nContent-Type: text/html; charset=utf-8\r\nContent-Length: ");
    t.append(d.as_str());
    t.append("\r\nConnection: close\r\n\r\n");
    t.append(body);
    t
}

/// The reply to a request that cannot be understood.
pub const BAD_REQUEST: &'static str = "HTTP/1.1 400 Bad Request\r\nContent-Length: 11\r\nConnection: close\r\n\r\nbad request";

/// The reply to a request for something else.
pub const NOT_FOUND: &'static str = "HTTP/1.1 404 Not Found\r\nContent-Length: 9\r\nConnection: close\r\n\r\nnot found";

/// The page that tells why a login failed.
pub open spec fn failure_page(error: Seq<char>) -> Seq<char> {
    "<!DOCTYPE html><html><body style=\"font-family:system-ui;background:#0f1419;color:#e8eef4;display:grid;place-items:center;min-height:100vh\"><p>"@
        + escaped("Login failed: "@ + error) + "</p></body></html>"@
}

fn failure_html(error: &str) -> (r: String)
    ensures
        r@ == failure_page(error@),
{
    let msg = join2("Login failed: ", error);
    let safe = html_escape(msg.as_str());
    join3(
        "<!DOCTYPE html><html><body style=\"font-family:system-ui;background:#0f1419;color:#e8eef4;display:grid;place-items:center;min-height:100vh\"><p>",
        safe.as_str(),
        "</p></body></html>",
    )
}

// ---------------------------------------------------------------------------
// Requests
// ---------------------------------------------------------------------------

/// The word at this place, or a default.
pub open spec fn word_or(words: Seq<Seq<char>>, i: int, default: Seq<char>) -> Seq<char> {
    if i < words.len() {
        words[i]
    } else {
        default
    }
}

/// The words of the first line of a request.
pub open spec fn request_words(req: Seq<char>) -> Seq<Seq<char>> {
    let lines = split::lines(req);
    if lines.len() > 0 {
        split::words(lines[0])
    } else {
        Seq::empty()
    }
}

/// The method and the path of a request.
pub open spec fn request_line(req: Seq<char>) -> (Seq<char>, Seq<char>) {
    (word_or(request_words(req), 0, "GET"@), word_or(request_words(req), 1, "/"@))
}

/// The method and the path of a request. What is missing is `GET` and `/`.
pub fn parse_request_line(req: &str) -> (r: (String, String))
    ensures
        (r.0@, r.1@) == request_line(req@),
{
    let lines = lines_of(req);
    let words: Vec<String> = if lines.len() > 0 {
        assert(text::views(lines@)[0] == lines@[0]@);
        words_of(lines[0].as_str())
    } else {
        let none: Vec<String> = Vec::new();
        assert(text::views(none@) == Seq::<Seq<char>>::empty());
        none
    };
    assert(text::views(words@) == request_words(req@));
    let method = if words.len() > 0 {
        assert(text::views(words@)[0] == words@[0]@);
        words[0].clone()
    } else {
        "GET".to_owned()
    };
    let path = if words.len() > 1 {
        assert(text::views(words@)[1] == words@[1]@);
        words[1].clone()
    } else {
        "/".to_owned()
    };
    (method, path)
}

/// What parts the head of a request from its body.
pub open spec fn head_end() -> Seq<char> {
    "\r\n\r\n"@
}

/// The body of a request, up to where it is parted again.
pub open spec fn request_body(req: Seq<char>) -> Option<Seq<char>> {
    match text::find(req, head_end()) {
        Some(i) => {
            let rest = req.skip(i + head_end().len());
            match text::find(rest, head_end()) {
                Some(j) => Some(rest.take(j)),
                None => Some(rest),
            }
        },
        None => None,
    }
}

/// The body of a request.
pub fn body_of(req: &str) -> (r: Option<String>)
    ensures
        text::opt_view(r) == request_body(req@),
{
    let sep = "\r\n\r\n";
    let n: usize = sep.unicode_len();
    let total: usize = req.unicode_len();
    match find_text(req, sep) {
        Some(i) => {
            assert(i + n <= total);
            let rest = text_from(req, i + n);
            match find_text(rest.as_str(), sep) {
                Some(j) => Some(text_until(rest.as_str(), j)),
                None => Some(rest),
            }
        },
        None => None,
    }
}

/// The browser comes back with what the service has sent.
pub open spec fn is_callback(method: Seq<char>, path: Seq<char>) -> bool {
    &&& method == "GET"@
    &&& text::starts_with(path, "/callback"@)
    &&& !text::starts_with(path, "/callback/complete"@)
}

/// The page in the browser finishes a login.
pub open spec fn is_completion(method: Seq<char>, path: Seq<char>) -> bool {
    method == "POST"@ && text::starts_with(path, "/callback/complete"@)
}

/// Only one listener runs at a time: another one is refused.
pub fn may_listen(listening: bool) -> (r: Result<(), String>)
    ensures
        match r {
            Ok(()) => !listening,
            Err(e) => listening && e@ == "login listener already running"@,
        },
{
    if listening {
        Err("login listener already running".to_owned())
    } else {
        Ok(())
    }
}

/// What to do with a request.
#[derive(Debug)]
pub enum LoginStep {
    /// Exchange the code for tokens.
    Exchange { code: String, state: String },
    /// Read a code and a state from this JSON text, then exchange the code.
    ReadBody(String),
    /// Send this reply.
    Reply(String),
}

/// The mathematical value of a `LoginStep`.
#[verifier::ext_equal]
pub enum StepView {
    Exchange { code: Seq<char>, state: Seq<char> },
    ReadBody(Seq<char>),
    Reply(Seq<char>),
}

impl View for LoginStep {
    type V = StepView;

    open spec fn view(&self) -> StepView {
        match self {
            LoginStep::Exchange { code, state } => StepView::Exchange {
                code: code@,
                state: state@,
            },
            LoginStep::ReadBody(s) => StepView::ReadBody(s@),
            LoginStep::Reply(s) => StepView::Reply(s@),
        }
    }
}

/// What to do with a request of this method and path: a callback with a code and a
/// state that can be read is exchanged, and one that lacks either gets the page
/// that reads them in the browser; what that page sends is read. `callback` is
/// the code and the state in the path.
pub open spec fn step_for(
    method: Seq<char>,
    path: Seq<char>,
    body: Option<Seq<char>>,
    callback: Option<(Seq<char>, Seq<char>)>,
) -> StepView {
    if is_callback(method, path) {
        if text::contains(path, "code="@) && callback is Some {
            StepView::Exchange { code: (callback->0).0, state: (callback->0).1 }
        } else {
            StepView::Reply(html_reply("200 OK"@, callback_page()))
        }
    } else if is_completion(method, path) {
        match body {
            Some(b) => StepView::ReadBody(text::trim(b, CharSet::White)),
            None => StepView::Reply(BAD_REQUEST@),
        }
    } else {
        StepView::Reply(NOT_FOUND@)
    }
}

/// The value of an optional code and state.
pub open spec fn callback_view(c: Option<(String, String)>) -> Option<(Seq<char>, Seq<char>)> {
    match c {
        Some((code, state)) => Some((code@, state@)),
        None => None,
    }
}

/// What to do with a request of this method and path.
pub fn login_step(
    method: &str,
    path: &str,
    body: Option<String>,
    callback: Option<(String, String)>,
) -> (r: LoginStep)
    ensures
        r@ == step_for(method@, path@, text::opt_view(body), callback_view(callback)),
{
    if same(method, "GET") && has_prefix(path, "/callback") && !has_prefix(
        path,
        "/callback/complete",
    ) {
        if has_text(path, "code=") {
            if let Some((code, state)) = callback {
                return LoginStep::Exchange { code, state };
            }
        }
        let page = callback_html();
        return LoginStep::Reply(html_reply_of("200 OK", page.as_str()));
    }
    if same(method, "POST") && has_prefix(path, "/callback/complete") {
        return match body {
            Some(b) => LoginStep::ReadBody(trim_of(b.as_str(), CharSet::White)),
            None => LoginStep::Reply(BAD_REQUEST.to_owned()),
        };
    }
    LoginStep::Reply(NOT_FOUND.to_owned())
}

/// The address that the path of a callback belongs to.
pub open spec fn callback_address(path: Seq<char>) -> Seq<char> {
    "http://127.0.0.1"@ + path
}

/// The code and the state in the address of a callback, if it has both and no
/// error.
pub open spec fn callback_in(address: Seq<char>) -> Option<(Seq<char>, Seq<char>)> {
    if web::url_refusal(address) is None {
        match auth::login_callback(web::url_pairs(address)) {
            Ok(c) => Some(c),
            Err(_) => None,
        }
    } else {
        None
    }
}

/// What to do with a request.
pub fn first_step(req: &str) -> (r: LoginStep)
    ensures
        r@ == step_for(
            request_line(req@).0,
            request_line(req@).1,
            request_body(req@),
            callback_in(callback_address(request_line(req@).1)),
        ),
{
    let (method, path) = parse_request_line(req);
    let address = join2("http://127.0.0.1", path.as_str());
    let callback = match login_callback_of(address.as_str()) {
        Ok(c) => Some(c),
        Err(_) => None,
    };
    let body = body_of(req);
    login_step(method.as_str(), path.as_str(), body, callback)
}

/// The reply after the exchange that a callback asked for, and whether the
/// listener is done.
pub fn after_callback(result: &Result<(), String>) -> (r: (String, bool))
    ensures
        match *result {
            Ok(()) => r.0@ == html_reply("200 OK"@, success_page()) && r.1,
            Err(e) => r.0@ == html_reply("400 Bad Request"@, failure_page(e@)) && !r.1,
        },
{
    match result {
        Ok(()) => {
            let page = success_html();
            (html_reply_of("200 OK", page.as_str()), true)
        },
        Err(e) => {
            let page = failure_html(e.as_str());
            (html_reply_of("400 Bad Request", page.as_str()), false)
        },
    }
}

/// The reply after the exchange that the page in the browser asked for, and
/// whether the listener is done. There is no result where its message could not
/// be read.
pub fn after_completion(result: &Option<Result<(), String>>) -> (r: (String, bool))
    ensures
        match *result {
            Some(Ok(())) => r.0@ == html_reply("200 OK"@, success_page()) && r.1,
            _ => r.0@ == BAD_REQUEST@ && !r.1,
        },
{
    match result {
        Some(Ok(())) => {
            let page = success_html();
            (html_reply_of("200 OK", page.as_str()), true)
        },
        _ => (BAD_REQUEST.to_owned(), false),
    }
}

/// Only a request of the callback leads to an exchange: anything else gets a
/// reply.
pub proof fn law_other_paths_are_not_found(
    method: Seq<char>,
    path: Seq<char>,
    body: Option<Seq<char>>,
    callback: Option<(Seq<char>, Seq<char>)>,
)
    requires
        !text::starts_with(path, "/callback"@),
    ensures
        step_for(method, path, body, callback) == StepView::Reply(NOT_FOUND@),
{
    reveal_strlit("/callback");
    reveal_strlit("/callback/complete");
    if text::starts_with(path, "/callback/complete"@) {
        let n = "/callback"@.len() as int;
        let m = "/callback/complete"@.len() as int;
        assert(path.subrange(0, n) == path.subrange(0, m).subrange(0, n));
        assert("/callback/complete"@.subrange(0, n) == "/callback"@);
    }
}

} // verus!
