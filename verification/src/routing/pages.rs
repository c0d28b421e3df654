//! The pages the proxy serves itself: the shared chrome, the page shown
//! while a daemon starts, the 404 for an unknown host, and the placeholder
//! for a reserved project or stack hostname.

use vstd::prelude::*;
use crate::names::views;
use crate::routing::text::{escape_html, spec_escape_html};

verus! {

// ─── pages ──────────────────────────────────────────────────────────────────

/// The shared page chrome up to the title.
pub const PAGE_BEFORE_TITLE: &'static str = "<!DOCTYPE html>\n<html lang=\"en\">\n<head>\n    <meta charset=\"UTF-8\">\n    <meta name=\"viewport\" content=\"width=device-width, initial-scale=1\">\n    <title>";

/// The shared page chrome between the title and the body.
pub const PAGE_BEFORE_BODY: &'static str = " \u{2014} pitchfork</title>\n    <style>\n        * { margin: 0; padding: 0; box-sizing: border-box; }\n        body {\n            font-family: -apple-system, BlinkMacSystemFont, \"Segoe UI\", Roboto, Helvetica, Arial, sans-serif;\n            background: #0f1117;\n            color: #e1e4e8;\n            display: flex;\n            align-items: center;\n            justify-content: center;\n            min-height: 100vh;\n        }\n        .container { max-width: 640px; padding: 2rem; }\n        h1 { font-size: 1.5rem; font-weight: 600; margin-bottom: 0.75rem; }\n        p { color: #8b949e; font-size: 0.9rem; margin-bottom: 0.75rem; }\n        ul { list-style: none; margin: 0.5rem 0 1rem; }\n        li { margin: 0.25rem 0; }\n        code, a {\n            color: #58a6ff;\n            font-family: \"SFMono-Regular\", Consolas, \"Liberation Mono\", Menlo, monospace;\n            text-decoration: none;\n        }\n    </style>\n</head>\n<body>\n    <div class=\"container\">";

/// The shared page chrome after the body.
pub const PAGE_AFTER_BODY: &'static str = "</div>\n</body>\n</html>";

/// The "Starting" page up to the slug in its title.
pub const STARTING_BEFORE_TITLE: &'static str = "<!DOCTYPE html>\n<html lang=\"en\">\n<head>\n    <meta charset=\"UTF-8\">\n    <meta name=\"viewport\" content=\"width=device-width, initial-scale=1\">\n    <meta http-equiv=\"refresh\" content=\"2\">\n    <title>Starting ";

/// The "Starting" page between the title's slug and the heading's.
pub const STARTING_BEFORE_SLUG: &'static str = "\u{2026} \u{2014} pitchfork</title>\n    <style>\n        * { margin: 0; padding: 0; box-sizing: border-box; }\n        body {\n            font-family: -apple-system, BlinkMacSystemFont, \"Segoe UI\", Roboto, Helvetica, Arial, sans-serif;\n            background: #0f1117;\n            color: #e1e4e8;\n            display: flex;\n            align-items: center;\n            justify-content: center;\n            min-height: 100vh;\n        }\n        .container {\n            text-align: center;\n            max-width: 480px;\n            padding: 2rem;\n        }\n        .spinner {\n            width: 48px;\n            height: 48px;\n            border: 4px solid rgba(255, 255, 255, 0.1);\n            border-top-color: #58a6ff;\n            border-radius: 50%;\n            animation: spin 0.8s linear infinite;\n            margin: 0 auto 1.5rem;\n        }\n        @keyframes spin {\n            to { transform: rotate(360deg); }\n        }\n        h1 {\n            font-size: 1.5rem;\n            font-weight: 600;\n            margin-bottom: 0.5rem;\n        }\n        .slug {\n            color: #58a6ff;\n            font-family: \"SFMono-Regular\", Consolas, \"Liberation Mono\", Menlo, monospace;\n        }\n        .host {\n            color: #8b949e;\n            font-size: 0.875rem;\n            margin-top: 0.25rem;\n        }\n        .hint {\n            color: #8b949e;\n            font-size: 0.8rem;\n            margin-top: 1.5rem;\n        }\n    </style>\n</head>\n<body>\n    <div class=\"container\">\n        <div class=\"spinner\"></div>\n        <h1>Starting <span class=\"slug\">";

/// The "Starting" page between the heading's slug and the host.
pub const STARTING_BEFORE_HOST: &'static str = "</span>\u{2026}</h1>\n        <p class=\"host\">";

/// The "Starting" page after the host.
pub const STARTING_AFTER_HOST: &'static str = "</p>\n        <p class=\"hint\">This page will refresh automatically when the daemon is ready.</p>\n    </div>\n</body>\n</html>";

/// A page in the shared pitchfork chrome.
pub open spec fn spec_html_document(title: Seq<char>, body: Seq<char>) -> Seq<char> {
    PAGE_BEFORE_TITLE@ + title + PAGE_BEFORE_BODY@ + body + PAGE_AFTER_BODY@
}

/// Wrap body markup in the shared pitchfork page chrome.
pub fn html_document(title: &str, body: &str) -> (r: String)
    ensures
        r@ == spec_html_document(title@, body@),
{
    let mut r = String::from_str(PAGE_BEFORE_TITLE);
    r.append(title);
    r.append(PAGE_BEFORE_BODY);
    r.append(body);
    r.append(PAGE_AFTER_BODY);
    r
}

/// The page shown while a daemon auto-starts, refreshing itself every two
/// seconds; the slug and host are escaped.
pub open spec fn spec_starting_page(slug: Seq<char>, raw_host: Seq<char>) -> Seq<char> {
    STARTING_BEFORE_TITLE@ + spec_escape_html(slug) + STARTING_BEFORE_SLUG@ + spec_escape_html(slug)
        + STARTING_BEFORE_HOST@ + spec_escape_html(raw_host) + STARTING_AFTER_HOST@
}

/// The page shown while a daemon auto-starts.
pub fn starting_page(slug: &str, raw_host: &str) -> (r: String)
    ensures
        r@ == spec_starting_page(slug@, raw_host@),
{
    let s = escape_html(slug);
    let h = escape_html(raw_host);
    let mut r = String::from_str(STARTING_BEFORE_TITLE);
    r.append(s.as_str());
    r.append(STARTING_BEFORE_SLUG);
    r.append(s.as_str());
    r.append(STARTING_BEFORE_HOST);
    r.append(h.as_str());
    r.append(STARTING_AFTER_HOST);
    r
}

/// The list items of the names a 404 page offers.
pub open spec fn known_items(known: Seq<Seq<char>>) -> Seq<char>
    decreases known.len(),
{
    if known.len() == 0 {
        Seq::empty()
    } else {
        known_items(known.drop_last()) + "<li><code>"@ + spec_escape_html(known.last()) + "</code></li>"@
    }
}

/// The body of the 404 page for a host whose project or daemon does not
/// exist: its heading, the host, and the names that are known.
pub open spec fn spec_unknown_host_body(host: Seq<char>, heading: Seq<char>, known: Seq<Seq<char>>) -> Seq<char> {
    "<h1>"@ + spec_escape_html(heading) + "</h1><p>No route for <code>"@ + spec_escape_html(host) + "</code>.</p>"@
        + if known.len() == 0 {
        "<p>Nothing is registered under this name yet.</p>"@
    } else {
        "<p>Known names:</p><ul>"@ + known_items(known) + "</ul>"@
    }
}

/// The body of the 404 page for an unknown host.
pub fn unknown_host_body(host: &str, heading: &str, known: &Vec<String>) -> (r: String)
    ensures
        r@ == spec_unknown_host_body(host@, heading@, views(known@)),
{
    let ghost all = views(known@);
    let mut r = String::from_str("<h1>");
    r.append(escape_html(heading).as_str());
    r.append("</h1><p>No route for <code>");
    r.append(escape_html(host).as_str());
    r.append("</code>.</p>");
    if known.len() == 0 {
        r.append("<p>Nothing is registered under this name yet.</p>");
        return r;
    }
    let ghost before = r@;
    let mut items = String::new();
    let mut i: usize = 0;
    while i < known.len()
        invariant
            i <= known@.len(),
            all == views(known@),
            items@ == known_items(all.subrange(0, i as int)),
        decreases known.len() - i,
    {
        assert(all.subrange(0, i + 1).drop_last() =~= all.subrange(0, i as int));
        items.append("<li><code>");
        items.append(escape_html(known[i].as_str()).as_str());
        items.append("</code></li>");
        i += 1;
    }
    assert(all.subrange(0, i as int) =~= all);
    r.append("<p>Known names:</p><ul>");
    r.append(items.as_str());
    r.append("</ul>");
    r
}

/// The list items linking a checkout's daemons, each escaped and linked at
/// `<daemon>.<suffix>` on the port the request came in on.
pub open spec fn daemon_items(daemons: Seq<Seq<char>>, suffix: Seq<char>, port_suffix: Seq<char>) -> Seq<char>
    decreases daemons.len(),
{
    if daemons.len() == 0 {
        Seq::empty()
    } else {
        let d = spec_escape_html(daemons.last());
        daemon_items(daemons.drop_last(), suffix, port_suffix) + "<li><a href=\"//"@ + d + "."@ + suffix + port_suffix
            + "\">"@ + d + "."@ + suffix + "</a></li>"@
    }
}

/// The body of the placeholder for a reserved project or stack hostname,
/// served when the web UI, which owns those pages, cannot.
pub open spec fn spec_placeholder_body(
    project: Seq<char>,
    worktree: Option<Seq<char>>,
    daemons: Seq<Seq<char>>,
    tld: Seq<char>,
    port_suffix: Seq<char>,
    web_url: Option<Seq<char>>,
) -> Seq<char> {
    let heading = match worktree {
        Some(wt) => spec_escape_html(project) + " \u{b7} "@ + spec_escape_html(wt),
        None => spec_escape_html(project),
    };
    let suffix = match worktree {
        Some(wt) => spec_escape_html(wt) + "."@ + spec_escape_html(project) + "."@ + spec_escape_html(tld),
        None => spec_escape_html(project) + "."@ + spec_escape_html(tld),
    };
    let list = if daemons.len() == 0 {
        "<p>No daemon in this checkout has a port configured.</p>"@
    } else {
        "<p>Daemons here:</p><ul>"@ + daemon_items(daemons, suffix, port_suffix) + "</ul>"@
    };
    let page = if worktree is Some {
        "stack"@
    } else {
        "project"@
    };
    let explanation = match web_url {
        Some(url) => "<p>This address is reserved for the "@ + page
            + " page, which the web UI serves.              No registered project covers this checkout, so it has no page yet: add its              directory under <code>[namespaces]</code> in your user config, or run              <code>pitchfork proxy add</code> from it.              <a href=\""@
            + spec_escape_html(url) + "/projects\">Open the project list</a>.</p>"@,
        None => "<p>This address is reserved for the "@ + page
            + " page, which the web UI serves.              Enable it with <code>[settings.web] auto_start = true</code> to open this              address.</p>"@,
    };
    "<h1>"@ + heading + "</h1>"@ + explanation + list
}

/// The body of the placeholder for a reserved project or stack hostname.
pub fn placeholder_body(
    project: &str,
    worktree: Option<&str>,
    daemons: &Vec<String>,
    tld: &str,
    port_suffix: &str,
    web_url: Option<&str>,
) -> (r: String)
    ensures
        r@ == spec_placeholder_body(
            project@,
            crate::names::opt_view(worktree),
            views(daemons@),
            tld@,
            port_suffix@,
            crate::names::opt_view(web_url),
        ),
{
    let p = escape_html(project);
    let t = escape_html(tld);
    let mut heading = escape_html(project);
    let mut suffix = String::new();
    match worktree {
        Some(wt) => {
            let w = escape_html(wt);
            heading.append(" \u{b7} ");
            heading.append(w.as_str());
            suffix.append(w.as_str());
            suffix.append(".");
            suffix.append(p.as_str());
            suffix.append(".");
            suffix.append(t.as_str());
        },
        None => {
            suffix.append(p.as_str());
            suffix.append(".");
            suffix.append(t.as_str());
        },
    }
    let ghost all = views(daemons@);
    let mut list = String::new();
    if daemons.len() == 0 {
        list.append("<p>No daemon in this checkout has a port configured.</p>");
    } else {
        let mut items = String::new();
        let mut i: usize = 0;
        while i < daemons.len()
            invariant
                i <= daemons@.len(),
                all == views(daemons@),
                items@ == daemon_items(all.subrange(0, i as int), suffix@, port_suffix@),
            decreases daemons.len() - i,
        {
            assert(all.subrange(0, i + 1).drop_last() =~= all.subrange(0, i as int));
            let d = escape_html(daemons[i].as_str());
            items.append("<li><a href=\"//");
            items.append(d.as_str());
            items.append(".");
            items.append(suffix.as_str());
            items.append(port_suffix);
            items.append("\">");
            items.append(d.as_str());
            items.append(".");
            items.append(suffix.as_str());
            items.append("</a></li>");
            i += 1;
        }
        assert(all.subrange(0, i as int) =~= all);
        list.append("<p>Daemons here:</p><ul>");
        list.append(items.as_str());
        list.append("</ul>");
    }
    let page = if worktree.is_some() {
        "stack"
    } else {
        "project"
    };
    let mut r = String::from_str("<h1>");
    r.append(heading.as_str());
    r.append("</h1>");
    r.append("<p>This address is reserved for the ");
    r.append(page);
    match web_url {
        Some(url) => {
            r.append(
                " page, which the web UI serves.              No registered project covers this checkout, so it has no page yet: add its              directory under <code>[namespaces]</code> in your user config, or run              <code>pitchfork proxy add</code> from it.              <a href=\"",
            );
            r.append(escape_html(url).as_str());
            r.append("/projects\">Open the project list</a>.</p>");
        },
        None => {
            r.append(
                " page, which the web UI serves.              Enable it with <code>[settings.web] auto_start = true</code> to open this              address.</p>",
            );
        },
    }
    r.append(list.as_str());
    r
}

/// The plain-text body of the redirect to a page's canonical location.
pub fn redirect_body(target: &str) -> (r: String)
    ensures
        r@ == "This page is at "@ + target@ + "\n"@,
{
    let mut r = String::from_str("This page is at ");
    r.append(target);
    r.append("\n");
    r
}

/// A redirect to a page's canonical location in the web UI.
#[derive(Clone, Debug, PartialEq, Eq)]
pub struct PageRedirect {
    /// Always 302: the page may move with the web UI's address.
    pub status: u16,
    /// Where the page is: the web UI's base URL followed by the page's path.
    pub location: String,
    /// `no-store`: the redirect is not to be cached.
    pub cache_control: &'static str,
    /// A plain-text body naming the location, for clients that do not follow.
    pub body: String,
}

/// The redirect from a reserved project or stack hostname to its page at
/// `path` in the web UI at `base`.
pub fn page_redirect_response(base: &str, path: &str) -> (r: PageRedirect)
    ensures
        r.status == 302,
        r.cache_control@ == "no-store"@,
        r.location@ == base@ + path@,
        r.body@ == "This page is at "@ + base@ + path@ + "\n"@,
{
    let mut location = base.to_owned();
    location.append(path);
    let body = redirect_body(location.as_str());
    PageRedirect { status: 302, location, cache_control: "no-store", body }
}

} // verus!
