use vstd::prelude::*;

use crate::text::{append_part, join, lemma_join_push};

verus! {

/// The header of one document: what its page shows, and the key it is grouped by.
#[derive(Clone, Debug)]
pub struct Ramen {
    pub name: String,
    pub image: String,
    pub location: String,
}

/// The header as plain text values.
pub struct RamenView {
    pub name: Seq<char>,
    pub image: Seq<char>,
    pub location: Seq<char>,
}

impl View for Ramen {
    type V = RamenView;

    open spec fn view(&self) -> RamenView {
        RamenView { name: self.name@, image: self.image@, location: self.location@ }
    }
}

impl Ramen {
    /// A copy of this header.
    pub fn duplicate(&self) -> (r: Ramen)
        ensures
            r@ == self@,
    {
        Ramen { name: self.name.clone(), image: self.image.clone(), location: self.location.clone() }
    }
}

/// Name of the site, shown in titles and in the logo's text.
pub open spec fn site_name() -> Seq<char> {
    "ラーログ"@
}

/// The document shell around a head and a body.
pub open spec fn html_doc(lang: Seq<char>, head: Seq<char>, body: Seq<char>) -> Seq<char> {
    "<!DOCTYPE html>\n<html lang=\""@ + lang + "\">\n"@ + head + "\n"@ + body + "\n</html>"@
}

/// One extra `<link>` line of the head.
pub open spec fn link_line(rel: Seq<char>, href: Seq<char>) -> Seq<char> {
    "    <link rel=\""@ + rel + "\" href=\""@ + href + "\">"@
}

/// One `<link>` line for each `(rel, href)` pair, in order.
pub open spec fn link_lines(links: Seq<(&str, &str)>) -> Seq<Seq<char>>
    decreases links.len(),
{
    if links.len() == 0 {
        Seq::empty()
    } else {
        link_lines(links.drop_last()).push(link_line(links.last().0@, links.last().1@))
    }
}

/// The extra `<link>` lines of the head, as text.
pub open spec fn links_text(links: Seq<(&str, &str)>) -> Seq<char> {
    join(link_lines(links), "    \n"@)
}

/// The head section: title, the fixed stylesheets, then the extra links.
pub open spec fn head_doc(title: Seq<char>, links: Seq<char>) -> Seq<char> {
    "<head>\n    <meta charset=\"utf-8\">\n    <meta name=\"viewport\" content=\"width=device-width, initial-scale=1\">\n    <title>"@
        + title
        + "</title>\n    <link rel=\"stylesheet\" href=\"./style.css\">\n    <link rel=\"stylesheet\" href=\"https://cdn.jsdelivr.net/npm/bulma@0.9.1/css/bulma.min.css\">\n"@
        + links + "\n</head>"@
}

/// The navigation bar: the site's logo, linking to the index page.
pub open spec fn navbar_doc() -> Seq<char> {
    "    <nav class=\"logobar\">\n        <div class=\"container is-justify-content-center\">\n            <a class=\"logo\" href=\"./index.html\">\n                <img src=\"./logo.png\" height=\"52\" alt=\""@
        + site_name()
        + "\">\n            </a>\n        </div>\n    </nav>\n    "@
}

/// The body section: the navigation bar, then the content in the page's container.
pub open spec fn body_doc(content: Seq<char>) -> Seq<char> {
    "<body style=\"overflow-x: hidden\">\n"@ + navbar_doc()
        + "\n    <section class=\"section\">\n        <div class=\"container is-max-desktop\">\n            <div class=\"content\">\n"@
        + content + "\n            </div>\n        </div>\n    </section>\n</body>"@
}

/// The content of a document's page: name, image, location, then the rendered body.
pub open spec fn ramen_content(r: RamenView, content: Seq<char>) -> Seq<char> {
    "\n        <h1>"@ + r.name + "</h1>\n        <img class=\"ramen-thumbnail\" src=\""@ + r.image
        + "\">\n        <div>"@ + r.location + "</div>\n        "@ + content
}

/// The whole page of one document.
pub open spec fn ramen_page(r: RamenView, content: Seq<char>) -> Seq<char> {
    html_doc(
        "ja"@,
        head_doc(r.name + " | "@ + site_name(), Seq::empty()),
        body_doc(ramen_content(r, content)),
    )
}

/// Wraps a head and a body into a complete HTML document.
pub fn html(lang: &str, head: &str, body: &str) -> (r: String)
    ensures
        r@ == html_doc(lang@, head@, body@),
{
    let mut s = String::from_str("<!DOCTYPE html>\n<html lang=\"");
    s.append(lang);
    s.append("\">\n");
    s.append(head);
    s.append("\n");
    s.append(body);
    s.append("\n</html>");
    s
}

/// The head section with the given title and extra `<link>` lines.
pub fn head(title: &str, links: Vec<(&str, &str)>) -> (r: String)
    ensures
        r@ == head_doc(title@, links_text(links@)),
{
    let mut lines = String::new();
    let mut i: usize = 0;
    while i < links.len()
        invariant
            i <= links@.len(),
            lines@ == join(link_lines(links@.take(i as int)), "    \n"@),
        decreases links@.len() - i,
    {
        let rel: &str = links[i].0;
        let href: &str = links[i].1;
        let mut line = String::from_str("    <link rel=\"");
        line.append(rel);
        line.append("\" href=\"");
        line.append(href);
        line.append("\">");
        proof {
            assert(links@.take(i + 1).drop_last() =~= links@.take(i as int));
            lemma_join_push(link_lines(links@.take(i as int)), line@, "    \n"@);
        }
        append_part(&mut lines, line.as_str(), "    \n", i == 0);
        i = i + 1;
    }
    assert(links@.take(links@.len() as int) =~= links@);
    let mut s = String::from_str(
        "<head>\n    <meta charset=\"utf-8\">\n    <meta name=\"viewport\" content=\"width=device-width, initial-scale=1\">\n    <title>",
    );
    s.append(title);
    s.append(
        "</title>\n    <link rel=\"stylesheet\" href=\"./style.css\">\n    <link rel=\"stylesheet\" href=\"https://cdn.jsdelivr.net/npm/bulma@0.9.1/css/bulma.min.css\">\n",
    );
    s.append(lines.as_str());
    s.append("\n</head>");
    s
}

/// The navigation bar shared by every page.
pub fn navbar() -> (r: String)
    ensures
        r@ == navbar_doc(),
{
    let mut s = String::from_str(
        "    <nav class=\"logobar\">\n        <div class=\"container is-justify-content-center\">\n            <a class=\"logo\" href=\"./index.html\">\n                <img src=\"./logo.png\" height=\"52\" alt=\"",
    );
    s.append("ラーログ");
    s.append("\">\n            </a>\n        </div>\n    </nav>\n    ");
    s
}

/// The body section holding the navigation bar and `content`.
pub fn body(content: &str) -> (r: String)
    ensures
        r@ == body_doc(content@),
{
    let mut s = String::from_str("<body style=\"overflow-x: hidden\">\n");
    let nav = navbar();
    s.append(nav.as_str());
    s.append(
        "\n    <section class=\"section\">\n        <div class=\"container is-max-desktop\">\n            <div class=\"content\">\n",
    );
    s.append(content);
    s.append("\n            </div>\n        </div>\n    </section>\n</body>");
    s
}

/// The page of one document, with `content` as its rendered body.
pub fn ramen(doc: Ramen, content: &str) -> (r: String)
    ensures
        r@ == ramen_page(doc@, content@),
{
    let mut title = doc.name.clone();
    title.append(" | ");
    title.append("ラーログ");
    let head_text = head(title.as_str(), Vec::new());
    let mut c = String::from_str("\n        <h1>");
    c.append(doc.name.as_str());
    c.append("</h1>\n        <img class=\"ramen-thumbnail\" src=\"");
    c.append(doc.image.as_str());
    c.append("\">\n        <div>");
    c.append(doc.location.as_str());
    c.append("</div>\n        ");
    c.append(content);
    let body_text = body(c.as_str());
    html("ja", head_text.as_str(), body_text.as_str())
}


/// An index entry as plain values: page file name and header.
pub open spec fn entry_view(e: (String, Ramen)) -> (Seq<char>, RamenView) {
    (e.0@, e.1@)
}

/// The index entries as plain values.
pub open spec fn entries_view(es: Seq<(String, Ramen)>) -> Seq<(Seq<char>, RamenView)> {
    es.map_values(|e: (String, Ramen)| entry_view(e))
}

/// The locations of the entries, each once, in the order of first appearance.
pub open spec fn locations(es: Seq<(Seq<char>, RamenView)>) -> Seq<Seq<char>>
    decreases es.len(),
{
    if es.len() == 0 {
        Seq::empty()
    } else {
        let d = locations(es.drop_last());
        if d.contains(es.last().1.location) {
            d
        } else {
            d.push(es.last().1.location)
        }
    }
}

/// The entries whose location is `loc`, in their order.
pub open spec fn at_location(es: Seq<(Seq<char>, RamenView)>, loc: Seq<char>) -> Seq<(Seq<char>, RamenView)>
    decreases es.len(),
{
    if es.len() == 0 {
        Seq::empty()
    } else if es.last().1.location == loc {
        at_location(es.drop_last(), loc).push(es.last())
    } else {
        at_location(es.drop_last(), loc)
    }
}

/// The link to one page on the index: thumbnail and name.
pub open spec fn card(e: (Seq<char>, RamenView)) -> Seq<char> {
    "<a href=\"./"@ + e.0 + "\">\n                                <img class=\"ramen-thumbnail\" src=\""@
        + e.1.image + "\">\n                                <div>\n                                "@
        + e.1.name + "\n                                </div>\n                            </a>"@
}

/// One card for each entry, in order.
pub open spec fn cards(es: Seq<(Seq<char>, RamenView)>) -> Seq<Seq<char>>
    decreases es.len(),
{
    if es.len() == 0 {
        Seq::empty()
    } else {
        cards(es.drop_last()).push(card(es.last()))
    }
}

/// The section of the index for one location: a heading and the cards of its entries.
pub open spec fn section(loc: Seq<char>, es: Seq<(Seq<char>, RamenView)>) -> Seq<char> {
    "<h2>"@ + loc
        + "</h2>\n                <div class=\"ramens-container\">\n                <div class=\"ramens\">"@
        + join(cards(at_location(es, loc)), "\n"@) + "</div>\n                </div>"@
}

/// One section for each of `locs`, in order.
pub open spec fn sections(locs: Seq<Seq<char>>, es: Seq<(Seq<char>, RamenView)>) -> Seq<Seq<char>>
    decreases locs.len(),
{
    if locs.len() == 0 {
        Seq::empty()
    } else {
        sections(locs.drop_last(), es).push(section(locs.last(), es))
    }
}

/// The listing of the index page: a section for each location.
pub open spec fn listing(es: Seq<(Seq<char>, RamenView)>) -> Seq<char> {
    join(sections(locations(es), es), "\n"@)
}

/// The index page over the entries `(page file name, header)`.
pub open spec fn home_page(es: Seq<(Seq<char>, RamenView)>) -> Seq<char> {
    html_doc("ja"@, head_doc(site_name(), Seq::empty()), body_doc(listing(es)))
}

/// Whether one of `keys` holds the text `s`.
fn contains_text(keys: &Vec<String>, s: &String) -> (b: bool)
    ensures
        b == exists|k: int| 0 <= k < keys@.len() && keys@[k]@ == s@,
{
    let mut k: usize = 0;
    while k < keys.len()
        invariant
            k <= keys@.len(),
            forall|m: int| 0 <= m < k ==> keys@[m]@ != s@,
        decreases keys@.len() - k,
    {
        if keys[k] == *s {
            return true;
        }
        k = k + 1;
    }
    false
}

/// The locations of the entries, each once, in the order of first appearance.
pub fn distinct_locations(ramens: &Vec<(String, Ramen)>) -> (keys: Vec<String>)
    ensures
        keys@.len() == locations(entries_view(ramens@)).len(),
        forall|k: int| 0 <= k < keys@.len() ==> keys@[k]@ == locations(entries_view(ramens@))[k],
{
    let mut keys: Vec<String> = Vec::new();
    let mut i: usize = 0;
    while i < ramens.len()
        invariant
            i <= ramens@.len(),
            keys@.len() == locations(entries_view(ramens@.take(i as int))).len(),
            forall|k: int|
                0 <= k < keys@.len() ==> keys@[k]@ == locations(entries_view(ramens@.take(i as int)))[k],
        decreases ramens@.len() - i,
    {
        let ghost d = locations(entries_view(ramens@.take(i as int)));
        proof {
            let cur = entries_view(ramens@.take(i as int));
            let nxt = entries_view(ramens@.take(i + 1));
            assert(nxt.drop_last() =~= cur);
            assert(nxt.last() == entry_view(ramens@[i as int]));
        }
        let loc = &ramens[i].1.location;
        let found = contains_text(&keys, loc);
        if found {
            assert(d.contains(loc@)) by {
                let k = choose|k: int| 0 <= k < keys@.len() && keys@[k]@ == loc@;
                assert(d[k] == loc@);
            }
        } else {
            assert(!d.contains(loc@)) by {
                if d.contains(loc@) {
                    let k = choose|k: int| 0 <= k < d.len() && d[k] == loc@;
                    assert(keys@[k]@ == loc@);
                }
            }
            keys.push(loc.clone());
        }
        i = i + 1;
    }
    assert(ramens@.take(ramens@.len() as int) =~= ramens@);
    keys
}

/// The section of the index for the location `loc`.
pub fn group_section(loc: &String, ramens: &Vec<(String, Ramen)>) -> (r: String)
    ensures
        r@ == section(loc@, entries_view(ramens@)),
{
    let mut list = String::new();
    let mut first = true;
    let mut i: usize = 0;
    while i < ramens.len()
        invariant
            i <= ramens@.len(),
            first == (at_location(entries_view(ramens@.take(i as int)), loc@).len() == 0),
            list@ == join(cards(at_location(entries_view(ramens@.take(i as int)), loc@)), "\n"@),
        decreases ramens@.len() - i,
    {
        proof {
            let cur = entries_view(ramens@.take(i as int));
            let nxt = entries_view(ramens@.take(i + 1));
            assert(nxt.drop_last() =~= cur);
            assert(nxt.last() == entry_view(ramens@[i as int]));
        }
        let e = &ramens[i];
        if e.1.location == *loc {
            let mut c = String::from_str("<a href=\"./");
            c.append(e.0.as_str());
            c.append("\">\n                                <img class=\"ramen-thumbnail\" src=\"");
            c.append(e.1.image.as_str());
            c.append("\">\n                                <div>\n                                ");
            c.append(e.1.name.as_str());
            c.append("\n                                </div>\n                            </a>");
            proof {
                let prev = at_location(entries_view(ramens@.take(i as int)), loc@);
                assert(cards(prev.push(entry_view(*e))).drop_last() =~= cards(prev)) by {
                    assert(prev.push(entry_view(*e)).drop_last() =~= prev);
                }
                lemma_join_push(cards(prev), c@, "\n"@);
            }
            append_part(&mut list, c.as_str(), "\n", first);
            first = false;
        }
        i = i + 1;
    }
    assert(ramens@.take(ramens@.len() as int) =~= ramens@);
    let mut s = String::from_str("<h2>");
    s.append(loc.as_str());
    s.append("</h2>\n                <div class=\"ramens-container\">\n                <div class=\"ramens\">");
    s.append(list.as_str());
    s.append("</div>\n                </div>");
    s
}

/// The index page: a section for each location, in the order in which the
/// locations first appear, each listing its entries in their order.
pub fn home(ramens: Vec<(String, Ramen)>) -> (r: String)
    ensures
        r@ == home_page(entries_view(ramens@)),
{
    let keys = distinct_locations(&ramens);
    let ghost locs = locations(entries_view(ramens@));
    let mut list = String::new();
    let mut j: usize = 0;
    while j < keys.len()
        invariant
            j <= keys@.len(),
            keys@.len() == locs.len(),
            forall|k: int| 0 <= k < keys@.len() ==> keys@[k]@ == locs[k],
            list@ == join(sections(locs.take(j as int), entries_view(ramens@)), "\n"@),
        decreases keys@.len() - j,
    {
        let sec = group_section(&keys[j], &ramens);
        proof {
            assert(locs.take(j + 1).drop_last() =~= locs.take(j as int));
            lemma_join_push(sections(locs.take(j as int), entries_view(ramens@)), sec@, "\n"@);
        }
        append_part(&mut list, sec.as_str(), "\n", j == 0);
        j = j + 1;
    }
    assert(locs.take(locs.len() as int) =~= locs);
    let head_text = head("ラーログ", Vec::new());
    let body_text = body(list.as_str());
    html("ja", head_text.as_str(), body_text.as_str())
}


/// Rendering is a function of the header and the content: equal inputs give
/// byte-identical pages.
pub proof fn law_page_deterministic(a: RamenView, b: RamenView, ca: Seq<char>, cb: Seq<char>)
    requires
        a == b,
        ca == cb,
    ensures
        ramen_page(a, ca) == ramen_page(b, cb),
{
}

/// With no entries the index page has an empty listing.
pub proof fn law_empty_index()
    ensures
        home_page(Seq::empty()) == html_doc(
            "ja"@,
            head_doc(site_name(), Seq::empty()),
            body_doc(Seq::empty()),
        ),
        locations(Seq::empty()).len() == 0,
{
}

/// The number of entries listed over the sections of `locs`.
pub open spec fn group_total(locs: Seq<Seq<char>>, es: Seq<(Seq<char>, RamenView)>) -> int
    decreases locs.len(),
{
    if locs.len() == 0 {
        0
    } else {
        group_total(locs.drop_last(), es) + at_location(es, locs.last()).len()
    }
}

/// How often `l` occurs in `locs`.
pub open spec fn occurrences(locs: Seq<Seq<char>>, l: Seq<char>) -> int
    decreases locs.len(),
{
    if locs.len() == 0 {
        0
    } else {
        occurrences(locs.drop_last(), l) + if locs.last() == l {
            1int
        } else {
            0
        }
    }
}

proof fn lemma_occurrences(locs: Seq<Seq<char>>, l: Seq<char>)
    requires
        locs.no_duplicates(),
    ensures
        occurrences(locs, l) == if locs.contains(l) {
            1int
        } else {
            0
        },
    decreases locs.len(),
{
    if locs.len() > 0 {
        let d = locs.drop_last();
        assert(d.no_duplicates());
        lemma_occurrences(d, l);
        if locs.last() == l {
            assert(!d.contains(l)) by {
                if d.contains(l) {
                    let k = choose|k: int| 0 <= k < d.len() && d[k] == l;
                    assert(locs[k] == locs[locs.len() - 1]);
                }
            }
        }
        if d.contains(l) {
            let k = choose|k: int| 0 <= k < d.len() && d[k] == l;
            assert(locs[k] == l);
        }
        if locs.contains(l) && locs.last() != l {
            let k = choose|k: int| 0 <= k < locs.len() && locs[k] == l;
            assert(d[k] == l);
        }
    }
}

proof fn lemma_total_push(locs: Seq<Seq<char>>, p: Seq<(Seq<char>, RamenView)>, e: (Seq<char>, RamenView))
    ensures
        group_total(locs, p.push(e)) == group_total(locs, p) + occurrences(locs, e.1.location),
    decreases locs.len(),
{
    assert(p.push(e).drop_last() =~= p);
    if locs.len() > 0 {
        lemma_total_push(locs.drop_last(), p, e);
    }
}

proof fn lemma_locations(es: Seq<(Seq<char>, RamenView)>)
    ensures
        locations(es).no_duplicates(),
        forall|k: int|
            0 <= k < es.len() ==> locations(es).contains(es[k].1.location) && at_location(
                es,
                es[k].1.location,
            ).contains(es[k]),
        forall|l: Seq<char>| at_location(es, l).len() > 0 ==> locations(es).contains(l),
        forall|l: Seq<char>, x: (Seq<char>, RamenView)|
            at_location(es, l).contains(x) ==> x.1.location == l,
    decreases es.len(),
{
    if es.len() > 0 {
        let p = es.drop_last();
        let e = es.last();
        let l = e.1.location;
        lemma_locations(p);
        let d = locations(p);
        assert(es =~= p.push(e));
        assert forall|m: Seq<char>| d.contains(m) implies locations(es).contains(m) by {
            let k = choose|k: int| 0 <= k < d.len() && d[k] == m;
            assert(locations(es)[k] == m);
        }
        if !d.contains(l) {
            assert(locations(es).last() == l);
        }
        assert forall|k: int| 0 <= k < es.len() implies locations(es).contains(es[k].1.location)
            && at_location(es, es[k].1.location).contains(es[k]) by {
            if k < es.len() - 1 {
                assert(es[k] == p[k]);
                let q = at_location(p, es[k].1.location);
                let j = choose|j: int| 0 <= j < q.len() && q[j] == es[k];
                assert(at_location(es, es[k].1.location)[j] == es[k]);
            } else {
                let q = at_location(es, l);
                assert(q.last() == e);
            }
        }
        assert forall|m: Seq<char>| at_location(es, m).len() > 0 implies locations(
            es,
        ).contains(m) by {
            if m != l {
                assert(at_location(p, m).len() > 0);
                assert(d.contains(m));
            } else if d.contains(l) {
                assert(locations(es) == d);
            } else {
                assert(locations(es).last() == l);
            }
        }
        assert forall|m: Seq<char>, x: (Seq<char>, RamenView)|
            at_location(es, m).contains(x) implies x.1.location == m by {
            let q = at_location(es, m);
            let j = choose|j: int| 0 <= j < q.len() && q[j] == x;
            if m == l && j == q.len() - 1 {
                assert(q == at_location(p, m).push(e));
                assert(x == e);
            } else {
                assert(at_location(p, m)[j] == x);
                assert(at_location(p, m).contains(x));
            }
        }
    }
}

/// Every entry is listed in the section of its own location and in no other,
/// each location has one section, and the sections together list exactly as
/// many entries as there are.
pub proof fn law_grouping_complete(es: Seq<(Seq<char>, RamenView)>)
    ensures
        locations(es).no_duplicates(),
        forall|k: int|
            0 <= k < es.len() ==> locations(es).contains(es[k].1.location) && at_location(
                es,
                es[k].1.location,
            ).contains(es[k]),
        forall|l: Seq<char>, x: (Seq<char>, RamenView)|
            at_location(es, l).contains(x) ==> x.1.location == l,
        group_total(locations(es), es) == es.len(),
    decreases es.len(),
{
    lemma_locations(es);
    if es.len() > 0 {
        let p = es.drop_last();
        let e = es.last();
        let l = e.1.location;
        law_grouping_complete(p);
        lemma_locations(p);
        let d = locations(p);
        assert(es =~= p.push(e));
        lemma_total_push(d, p, e);
        lemma_occurrences(d, l);
        if !d.contains(l) {
            assert(locations(es).drop_last() =~= d);
            assert(at_location(p, l).len() == 0);
        }
    }
}

} // verus!
