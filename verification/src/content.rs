//! Page-content extraction: the script that reads a page (or one element
//! of it) as text, HTML, title or link list, capped in length.

use vstd::prelude::*;
use crate::text::{decimal, push_decimal, push_str};

verus! {

/// What to extract from the page.
#[derive(Clone, Copy, Debug, PartialEq, Eq, Structural)]
pub enum ContentFormat {
    Text,
    Html,
    Title,
    Links,
}

/// Length cap used when the caller gives none.
pub const DEFAULT_MAX_CHARS: usize = 65536;

/// Largest length cap a caller may ask for.
pub const MAX_MAX_CHARS: usize = 4194304;

pub const ROOT_FROM_ELEMENT: &'static str = "\nconst root = el;";

pub const ROOT_DOCUMENT: &'static str = "const root = document.documentElement;";

pub const TEXT_BODY: &'static str = r#"
const text = (root.innerText || root.textContent || '').replace(/[ \t]+/g, ' ').replace(/\n{3,}/g, '\n\n').trim();
return { format: 'text', url: location.href, title: document.title,
         truncated: text.length > MAX, content: text.slice(0, MAX) };"#;

pub const HTML_BODY: &'static str = r#"
const html = root.outerHTML || '';
return { format: 'html', url: location.href, title: document.title,
         truncated: html.length > MAX, content: html.slice(0, MAX) };"#;

pub const TITLE_BODY: &'static str = r#"
return { format: 'title', url: location.href, title: document.title };"#;

pub const LINKS_BODY: &'static str = r#"
const seen = new Set();
const links = [];
for (const a of root.querySelectorAll('a[href]')) {
  if (links.length >= 200) break;
  const href = a.href;
  if (!href || href.startsWith('javascript:') || seen.has(href)) continue;
  const text = (a.innerText || a.getAttribute('aria-label') || '').replace(/\s+/g, ' ').trim().slice(0, 120);
  seen.add(href);
  links.push({ url: href, text });
}
return { format: 'links', url: location.href, title: document.title, links };"#;

/// The length cap: the caller's, or the default, clamped to
/// `1..=MAX_MAX_CHARS`.
pub open spec fn content_limit(max_chars: Option<usize>) -> nat {
    let m = match max_chars {
        Some(m) => m,
        None => DEFAULT_MAX_CHARS,
    };
    if m < 1 {
        1
    } else if m > MAX_MAX_CHARS {
        MAX_MAX_CHARS as nat
    } else {
        m as nat
    }
}

/// The script fragment that binds `root`: the element a target prelude
/// selected, or the whole document.
pub open spec fn content_scope(prelude: Option<Seq<char>>) -> Seq<char> {
    match prelude {
        Some(p) => p + ROOT_FROM_ELEMENT@,
        None => ROOT_DOCUMENT@,
    }
}

/// The extraction code for a format.
pub open spec fn content_body(format: ContentFormat) -> Seq<char> {
    match format {
        ContentFormat::Text => TEXT_BODY@,
        ContentFormat::Html => HTML_BODY@,
        ContentFormat::Title => TITLE_BODY@,
        ContentFormat::Links => LINKS_BODY@,
    }
}

/// The whole extraction script.
pub open spec fn content_script(
    format: ContentFormat,
    prelude: Option<Seq<char>>,
    max_chars: Option<usize>,
) -> Seq<char> {
    "const MAX = "@ + decimal(content_limit(max_chars)) + ";\n"@ + content_scope(prelude)
        + content_body(format)
}

/// The length cap for an extraction.
pub fn content_limit_exec(max_chars: Option<usize>) -> (m: usize)
    ensures
        m == content_limit(max_chars),
        1 <= m <= MAX_MAX_CHARS,
{
    let m = match max_chars {
        Some(m) => m,
        None => DEFAULT_MAX_CHARS,
    };
    if m < 1 {
        1
    } else if m > MAX_MAX_CHARS {
        MAX_MAX_CHARS
    } else {
        m
    }
}

/// The script that extracts page content in `format`. `prelude` is the
/// element-targeting prelude (which binds `el`) when a selector was
/// given, `None` to read the whole document.
pub fn get_content(format: ContentFormat, prelude: Option<&str>, max_chars: Option<usize>) -> (js:
    String)
    ensures
        js@ == content_script(
            format,
            match prelude {
                Some(p) => Some(p@),
                None => None,
            },
            max_chars,
        ),
{
    let limit = content_limit_exec(max_chars);
    let mut js = String::new();
    push_str(&mut js, "const MAX = ");
    push_decimal(&mut js, limit as u64);
    push_str(&mut js, ";\n");
    match prelude {
        Some(p) => {
            push_str(&mut js, p);
            push_str(&mut js, ROOT_FROM_ELEMENT);
        },
        None => push_str(&mut js, ROOT_DOCUMENT),
    }
    let body = match format {
        ContentFormat::Text => TEXT_BODY,
        ContentFormat::Html => HTML_BODY,
        ContentFormat::Title => TITLE_BODY,
        ContentFormat::Links => LINKS_BODY,
    };
    push_str(&mut js, body);
    assert(js@ =~= content_script(
        format,
        match prelude {
            Some(p) => Some(p@),
            None => None,
        },
        max_chars,
    ));
    js
}

/// The authentication-context script: cookie names (never values),
/// session against persistent counts where the Cookie Store API exists,
/// storage key names and counts, and a `likely_authenticated` guess from
/// session-like cookie names.
pub const AUTH_CONTEXT_JS: &'static str = r#"
const out = { url: location.href, origin: location.origin };
try {
  const names = document.cookie ? document.cookie.split('; ').map(c => c.split('=')[0]).filter(Boolean) : [];
  out.cookie_names = names.slice(0, 50);
  out.cookie_count = names.length;
} catch (_) { out.cookie_count = 0; out.cookie_names = []; }
if (window.cookieStore && cookieStore.getAll) {
  try {
    const all = await cookieStore.getAll();
    out.cookie_count = all.length;
    out.cookie_names = all.map(c => c.name).slice(0, 50);
    const now = Date.now();
    out.persistent_cookies = all.filter(c => c.expires && c.expires > now).length;
    out.session_cookies = all.filter(c => !c.expires).length;
  } catch (_) {}
}
try {
  out.local_storage_keys = Object.keys(localStorage).slice(0, 50);
  out.local_storage_count = localStorage.length;
} catch (_) { out.local_storage_count = 0; }
try { out.session_storage_count = sessionStorage.length; } catch (_) { out.session_storage_count = 0; }
out.likely_authenticated = out.cookie_count > 0
  && (out.cookie_names || []).some(n => /sess|token|auth|sid|login|jwt|csrf/i.test(n));
return out;"#;

/// The authentication-context script.
pub fn auth_context() -> (js: &'static str)
    ensures
        js@ == AUTH_CONTEXT_JS@,
{
    AUTH_CONTEXT_JS
}

/// How the length cap follows the request: 64 KiB by default, a cap
/// within `1..=MAX_MAX_CHARS` (4 MiB) kept, zero raised to one, larger
/// ones lowered to 4 MiB.
pub proof fn lemma_content_limit(max_chars: Option<usize>)
    ensures
        1 <= content_limit(max_chars) <= 4194304,
        max_chars.is_none() ==> content_limit(max_chars) == 65536,
        match max_chars {
            Some(m) => (1 <= m <= 4194304 ==> content_limit(max_chars) == m) && (m == 0
                ==> content_limit(max_chars) == 1) && (m > 4194304 ==> content_limit(max_chars)
                == 4194304),
            None => true,
        },
{
}

} // verus!
