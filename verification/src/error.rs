//! Application errors and how they are answered: a status code and an
//! HTML fragment with the escaped message.

use vstd::prelude::*;
use crate::filters::{decimal, push_decimal};
use crate::text::{chars_of, push_char};

verus! {

/// Errors of the application; the causes from outside libraries are kept
/// as their messages.
#[derive(Debug)]
pub enum AppError {
    Database(String),
    Pool(String),
    NotFound(String),
    Validation(String),
    CsvParse(String),
    Io(String),
    Internal(String),
}

/// A message carried from a failed request to the error page.
#[derive(Clone)]
pub struct ErrorMessage(pub String);

/// One character escaped for HTML text and attribute values.
pub open spec fn escape_char(c: char) -> Seq<char> {
    if c == '&' {
        "&amp;"@
    } else if c == '<' {
        "&lt;"@
    } else if c == '>' {
        "&gt;"@
    } else if c == '"' {
        "&quot;"@
    } else if c == '\'' {
        "&#x27;"@
    } else {
        seq![c]
    }
}

/// The text with `&`, `<`, `>`, `"` and `'` replaced by their entities.
pub open spec fn escaped(s: Seq<char>) -> Seq<char>
    decreases s.len(),
{
    if s.len() == 0 {
        seq![]
    } else {
        escaped(s.drop_last()) + escape_char(s.last())
    }
}

pub fn html_escape(s: &str) -> (res: String)
    ensures
        res@ == escaped(s@),
{
    let cs = chars_of(s);
    let mut out = String::new();
    let mut i: usize = 0;
    while i < cs.len()
        invariant
            cs@ == s@,
            i <= cs@.len(),
            out@ == escaped(cs@.take(i as int)),
        decreases cs@.len() - i,
    {
        let c = cs[i];
        assert(cs@.take(i + 1).drop_last() =~= cs@.take(i as int));
        if c == '&' {
            out.append("&amp;");
        } else if c == '<' {
            out.append("&lt;");
        } else if c == '>' {
            out.append("&gt;");
        } else if c == '"' {
            out.append("&quot;");
        } else if c == '\'' {
            out.append("&#x27;");
        } else {
            let ghost before = out@;
            push_char(&mut out, c);
            assert(out@ =~= before + seq![c]);
        }
        i += 1;
    }
    assert(cs@.take(cs@.len() as int) =~= cs@);
    out
}

impl AppError {
    /// The HTTP status and the message shown for this error; causes from
    /// the database, the pool and I/O are not shown.
    pub open spec fn status_message(&self) -> (u16, Seq<char>) {
        match self {
            AppError::NotFound(m) => (404, m@),
            AppError::Validation(m) => (400, m@),
            AppError::CsvParse(m) => (400, m@),
            AppError::Database(_) => (500, "Database error"@),
            AppError::Pool(_) => (500, "Database connection error"@),
            AppError::Io(_) => (500, "IO error"@),
            AppError::Internal(m) => (500, m@),
        }
    }

    pub fn status_and_message(&self) -> (res: (u16, String))
        ensures
            res.0 == self.status_message().0,
            res.1@ == self.status_message().1,
    {
        match self {
            AppError::NotFound(m) => (404, m.clone()),
            AppError::Validation(m) => (400, m.clone()),
            AppError::CsvParse(m) => (400, m.clone()),
            AppError::Database(_) => (500, String::from_str("Database error")),
            AppError::Pool(_) => (500, String::from_str("Database connection error")),
            AppError::Io(_) => (500, String::from_str("IO error")),
            AppError::Internal(m) => (500, m.clone()),
        }
    }
}

pub open spec fn error_fragment(message: Seq<char>) -> Seq<char> {
    "<div class=\"p-4 bg-red-100 dark:bg-red-900 border border-red-400 dark:border-red-600 rounded-lg\">\n                <p class=\"text-red-700 dark:text-red-200\">"@
        + escaped(message) + "</p>\n            </div>"@
}

/// The HTML fragment that answers a failed request.
pub fn error_html(message: &str) -> (res: String)
    ensures
        res@ == error_fragment(message@),
{
    let mut out = String::from_str(
        "<div class=\"p-4 bg-red-100 dark:bg-red-900 border border-red-400 dark:border-red-600 rounded-lg\">\n                <p class=\"text-red-700 dark:text-red-200\">",
    );
    out.append(html_escape(message).as_str());
    out.append("</p>\n            </div>");
    out
}

/// The title and default message of an error page for a status code.
pub open spec fn status_info(code: u16) -> (Seq<char>, Seq<char>) {
    if code == 400 {
        ("Bad Request"@, "The request could not be understood."@)
    } else if code == 403 {
        ("Forbidden"@, "You don't have permission to access this."@)
    } else if code == 404 {
        ("Not Found"@, "The page you're looking for doesn't exist."@)
    } else if code == 405 {
        ("Method Not Allowed"@, "This action is not supported."@)
    } else if code == 500 {
        ("Internal Server Error"@, "Something went wrong on our end."@)
    } else {
        ("Error"@, ""@)
    }
}

pub fn status_title(code: u16) -> (res: &'static str)
    ensures
        res@ == status_info(code).0,
{
    if code == 400 {
        "Bad Request"
    } else if code == 403 {
        "Forbidden"
    } else if code == 404 {
        "Not Found"
    } else if code == 405 {
        "Method Not Allowed"
    } else if code == 500 {
        "Internal Server Error"
    } else {
        "Error"
    }
}

/// The message shown when a failed response carries none.
pub open spec fn default_message_text(code: u16) -> Seq<char> {
    if status_info(code).1.len() == 0 {
        "An unexpected error occurred ("@ + decimal(code as nat) + ")."@
    } else {
        status_info(code).1
    }
}

pub fn default_message(code: u16) -> (res: String)
    ensures
        res@ == default_message_text(code),
{
    proof {
        reveal_strlit("");
        reveal_strlit("The request could not be understood.");
        reveal_strlit("You don't have permission to access this.");
        reveal_strlit("The page you're looking for doesn't exist.");
        reveal_strlit("This action is not supported.");
        reveal_strlit("Something went wrong on our end.");
    }
    if code == 400 {
        String::from_str("The request could not be understood.")
    } else if code == 403 {
        String::from_str("You don't have permission to access this.")
    } else if code == 404 {
        String::from_str("The page you're looking for doesn't exist.")
    } else if code == 405 {
        String::from_str("This action is not supported.")
    } else if code == 500 {
        String::from_str("Something went wrong on our end.")
    } else {
        let mut out = String::from_str("An unexpected error occurred (");
        push_decimal(&mut out, code as u64);
        out.append(").");
        out
    }
}

/// Whether a response is replaced by a full error page: failed
/// responses (4xx, 5xx) are, except for HTMX requests, API routes and the
/// health check, which keep their own bodies.
pub open spec fn renders_error_page(status: u16, is_htmx: bool, path: Seq<char>) -> bool {
    400 <= status <= 599 && !is_htmx && !"/api/"@.is_prefix_of(path) && path != "/health"@
}

fn starts_with_api(path: &str) -> (res: bool)
    ensures
        res == "/api/"@.is_prefix_of(path@),
{
    let p = chars_of("/api/");
    let b = chars_of(path);
    if p.len() > b.len() {
        return false;
    }
    let mut i: usize = 0;
    while i < p.len()
        invariant
            p@ == "/api/"@,
            b@ == path@,
            p@.len() <= b@.len(),
            i <= p@.len(),
            forall|t: int| 0 <= t < i ==> p@[t] == b@[t],
        decreases p@.len() - i,
    {
        if p[i] != b[i] {
            return false;
        }
        i += 1;
    }
    assert(b@.take(p@.len() as int) =~= p@);
    true
}

/// Decides whether the response to a request becomes an error page (see
/// `renders_error_page`).
pub fn error_page_middleware(status: u16, is_htmx: bool, path: &str) -> (res: bool)
    ensures
        res == renders_error_page(status, is_htmx, path@),
{
    if !(400 <= status && status <= 599) || is_htmx {
        return false;
    }
    if starts_with_api(path) {
        return false;
    }
    !crate::text::str_eq(path, "/health")
}

/// The message of an error page: the one the failure carried, else the
/// status code's default.
pub fn error_page_message(carried: Option<&str>, code: u16) -> (res: String)
    ensures
        res@ == match carried {
            Some(m) => m@,
            None => default_message_text(code),
        },
{
    match carried {
        Some(m) => m.to_string(),
        None => default_message(code),
    }
}

/// The message of the answer to a route that does not exist.
pub fn fallback_message() -> (res: String)
    ensures
        res@ == status_info(404).1,
{
    proof {
        reveal_strlit("The page you're looking for doesn't exist.");
    }
    String::from_str("The page you're looking for doesn't exist.")
}

} // verus!
