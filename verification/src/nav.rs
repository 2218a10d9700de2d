//! Site navigation.
//!
//! A generated page is self-contained by design, and a single file
//! stays that way. When many pages are published together as a site,
//! each one also needs a way back to the others: another service
//! date, the other direction of a line, the hub.
//!
//! [`PageNav`] is that block. It is optional, so a one-off page keeps
//! exactly the shape it has without it, and it holds only relative
//! links, so a site works under any path prefix.

use vstd::prelude::*;

use crate::escape::{attr, html_escape, text};
use crate::textbuf::{owned, push_char, push_str};

verus! {

/// One link in a navigation group.
#[derive(Clone, Debug, PartialEq, Eq)]
pub struct NavLink {
    /// The relative target, for example `../index.html`.
    pub href: String,
    /// The visible text.
    pub label: String,
    /// A longer description for assistive technology, when the label
    /// alone is not enough.
    pub title: Option<String>,
    /// Whether this link names the page that the reader is on.
    pub current: bool,
}

impl NavLink {
    /// Make a link.
    pub fn new(href: &str, label: &str) -> (l: NavLink)
        ensures
            l.href@ == href@,
            l.label@ == label@,
            l.title is None,
            !l.current,
    {
        NavLink { href: owned(href), label: owned(label), title: None, current: false }
    }

    /// Mark the link as the page that the reader is on.
    pub fn current(self, current: bool) -> (l: NavLink)
        ensures
            l == (NavLink { current, ..self }),
    {
        NavLink { current, ..self }
    }

    /// Add a longer description.
    pub fn titled(self, title: &str) -> (l: NavLink)
        ensures
            l.href == self.href,
            l.label == self.label,
            l.current == self.current,
            l.title matches Some(t) && t@ == title@,
    {
        NavLink { title: Some(owned(title)), ..self }
    }
}

/// A labelled row of links, for example the service dates.
#[derive(Clone, Debug, PartialEq, Eq)]
pub struct NavGroup {
    /// The heading of the row.
    pub label: String,
    /// The links.
    pub links: Vec<NavLink>,
}

impl NavGroup {
    /// Make a group.
    pub fn new(label: &str, links: Vec<NavLink>) -> (g: NavGroup)
        ensures
            g.label@ == label@,
            g.links@ == links@,
    {
        NavGroup { label: owned(label), links }
    }
}

impl Default for NavGroup {
    fn default() -> (g: NavGroup)
        ensures
            g.label@.len() == 0,
            g.links@.len() == 0,
    {
        NavGroup { label: String::new(), links: Vec::new() }
    }
}

/// The navigation block of a page inside a published site.
#[derive(Clone, Debug, PartialEq, Eq)]
pub struct PageNav {
    /// The link back to the hub.
    pub home: Option<NavLink>,
    /// The name of the site, beside the home link.
    pub site_name: Option<String>,
    /// The rows of links.
    pub groups: Vec<NavGroup>,
}

impl Default for PageNav {
    fn default() -> (n: PageNav)
        ensures
            n.home is None,
            n.site_name is None,
            n.groups@.len() == 0,
    {
        PageNav { home: None, site_name: None, groups: Vec::new() }
    }
}

/// Whether a navigation block would render nothing: it has no home
/// link and no group holds a link.
pub open spec fn nav_empty(nav: PageNav) -> bool {
    nav.home is None && forall|i: int|
        0 <= i < nav.groups@.len() ==> (#[trigger] nav.groups@[i]).links@.len() == 0
}

impl PageNav {
    /// Report whether the block would render nothing.
    pub fn is_empty(&self) -> (b: bool)
        ensures
            b == nav_empty(*self),
    {
        if self.home.is_some() {
            return false;
        }
        let mut i: usize = 0;
        while i < self.groups.len()
            invariant
                i <= self.groups@.len(),
                forall|k: int| 0 <= k < i ==> (#[trigger] self.groups@[k]).links@.len() == 0,
            decreases self.groups@.len() - i,
        {
            if self.groups[i].links.len() > 0 {
                return false;
            }
            i = i + 1;
        }
        true
    }
}

/// The markup of one link.
pub open spec fn link_html(link: NavLink) -> Seq<char> {
    "<li><a"@ + (if link.current {
        " class=\"current\" aria-current=\"page\""@
    } else {
        Seq::empty()
    }) + " href=\""@ + html_escape(link.href@) + seq!['"'] + (match link.title {
        Some(t) => " title=\""@ + html_escape(t@) + seq!['"'],
        None => Seq::empty(),
    }) + seq!['>'] + html_escape(link.label@) + "</a></li>\n"@
}

/// The markup of a run of links.
pub open spec fn links_html(links: Seq<NavLink>) -> Seq<char>
    decreases links.len(),
{
    if links.len() == 0 {
        Seq::empty()
    } else {
        links_html(links.drop_last()) + link_html(links.last())
    }
}

/// The markup of one group; a group without links renders nothing.
pub open spec fn group_html(group: NavGroup) -> Seq<char> {
    if group.links@.len() == 0 {
        Seq::empty()
    } else {
        "<div class=\"nav-group\">\n<span class=\"nav-label\">"@ + html_escape(group.label@)
            + "</span>\n<ul>\n"@ + links_html(group.links@) + "</ul>\n</div>\n"@
    }
}

/// The markup of a run of groups.
pub open spec fn groups_html(groups: Seq<NavGroup>) -> Seq<char>
    decreases groups.len(),
{
    if groups.len() == 0 {
        Seq::empty()
    } else {
        groups_html(groups.drop_last()) + group_html(groups.last())
    }
}

/// The markup of the home link and the site name.
pub open spec fn nav_top_html(nav: PageNav) -> Seq<char> {
    (match nav.home {
        Some(h) => "<a class=\"site-home\" href=\""@ + html_escape(h.href@) + "\">"@
            + "<span aria-hidden=\"true\">\u{2190}</span> "@ + html_escape(h.label@)
            + "</a>\n"@,
        None => Seq::empty(),
    }) + (match nav.site_name {
        Some(n) => "<span class=\"site-name\">"@ + html_escape(n@) + "</span>\n"@,
        None => Seq::empty(),
    })
}

/// The markup of a navigation block.
pub open spec fn nav_html(nav: PageNav) -> Seq<char> {
    if nav_empty(nav) {
        Seq::empty()
    } else {
        "<nav class=\"site-nav no-print\" aria-label=\"Site\">\n"@ + nav_top_html(nav)
            + groups_html(nav.groups@) + "</nav>\n"@
    }
}

fn render_top(out: &mut String, nav: &PageNav)
    ensures
        final(out)@ == old(out)@ + nav_top_html(*nav),
{
    let ghost start = out@;
    match &nav.home {
        Some(home) => {
            push_str(out, "<a class=\"site-home\" href=\"");
            push_str(out, attr(home.href.as_str()).as_str());
            push_str(out, "\">");
            push_str(out, "<span aria-hidden=\"true\">\u{2190}</span> ");
            push_str(out, text(home.label.as_str()).as_str());
            push_str(out, "</a>\n");
        },
        None => {},
    }
    let ghost mid = out@;
    match &nav.site_name {
        Some(name) => {
            push_str(out, "<span class=\"site-name\">");
            push_str(out, text(name.as_str()).as_str());
            push_str(out, "</span>\n");
        },
        None => {},
    }
    proof {
        assert(out@ =~= start + nav_top_html(*nav));
    }
}

fn render_link(out: &mut String, link: &NavLink)
    ensures
        final(out)@ == old(out)@ + link_html(*link),
{
    let ghost start = out@;
    push_str(out, "<li><a");
    if link.current {
        push_str(out, " class=\"current\" aria-current=\"page\"");
    }
    push_str(out, " href=\"");
    push_str(out, attr(link.href.as_str()).as_str());
    push_char(out, '"');
    match &link.title {
        Some(title) => {
            push_str(out, " title=\"");
            push_str(out, attr(title.as_str()).as_str());
            push_char(out, '"');
        },
        None => {},
    }
    push_char(out, '>');
    push_str(out, text(link.label.as_str()).as_str());
    push_str(out, "</a></li>\n");
    proof {
        assert(out@ =~= start + link_html(*link));
    }
}

fn render_group(out: &mut String, group: &NavGroup)
    ensures
        final(out)@ == old(out)@ + group_html(*group),
{
    if group.links.len() == 0 {
        proof {
            assert(out@ =~= out@ + group_html(*group));
        }
        return;
    }
    let ghost start = out@;
    push_str(out, "<div class=\"nav-group\">\n<span class=\"nav-label\">");
    push_str(out, text(group.label.as_str()).as_str());
    push_str(out, "</span>\n<ul>\n");
    let ghost before_links = out@;
    let mut i: usize = 0;
    while i < group.links.len()
        invariant
            i <= group.links@.len(),
            out@ == before_links + links_html(group.links@.take(i as int)),
        decreases group.links@.len() - i,
    {
        proof {
            assert(group.links@.take(i + 1).drop_last() =~= group.links@.take(i as int));
        }
        render_link(out, &group.links[i]);
        proof {
            assert(out@ =~= before_links + links_html(group.links@.take(i + 1)));
        }
        i = i + 1;
    }
    push_str(out, "</ul>\n</div>\n");
    proof {
        assert(group.links@.take(group.links@.len() as int) =~= group.links@);
        assert(out@ =~= start + group_html(*group));
    }
}

/// Write the navigation block.
///
/// The block is a `<nav>` with an accessible name, and it carries the
/// `no-print` class: a printed timetable needs no links.
pub fn render(out: &mut String, nav: &PageNav)
    ensures
        final(out)@ == old(out)@ + nav_html(*nav),
{
    if nav.is_empty() {
        proof {
            assert(out@ =~= out@ + nav_html(*nav));
        }
        return;
    }
    let ghost start = out@;
    push_str(out, "<nav class=\"site-nav no-print\" aria-label=\"Site\">\n");
    render_top(out, nav);
    let ghost before_groups = out@;
    let mut i: usize = 0;
    while i < nav.groups.len()
        invariant
            i <= nav.groups@.len(),
            out@ == before_groups + groups_html(nav.groups@.take(i as int)),
        decreases nav.groups@.len() - i,
    {
        proof {
            assert(nav.groups@.take(i + 1).drop_last() =~= nav.groups@.take(i as int));
        }
        render_group(out, &nav.groups[i]);
        proof {
            assert(out@ =~= before_groups + groups_html(nav.groups@.take(i + 1)));
        }
        i = i + 1;
    }
    push_str(out, "</nav>\n");
    proof {
        assert(nav.groups@.take(nav.groups@.len() as int) =~= nav.groups@);
        assert(out@ =~= start + nav_html(*nav));
    }
}

} // verus!
