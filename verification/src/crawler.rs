//! What the crawler keeps of a fetched page: its title, its absolute
//! `http`/`https` links, and its visible text.
//!
//! HTML is parsed and queried by the scraper crate, and links are resolved by
//! the url crate; what the crawler makes of their answers is proved here.

use vstd::prelude::*;
use crate::messages::{PageResult, PageResultView};
use crate::text::{
    chars_eq, chars_to_string, is_space, join, to_chars, trim, trim_chars, trim_end, trim_start, views,
};
use scraper::{Html, Selector};

verus! {

/// An optional string, as text.
pub open spec fn opt_view(o: Option<String>) -> Option<Seq<char>> {
    match o {
        Some(s) => Some(s@),
        None => None,
    }
}

/// For each element of the parsed `html` that `selector` matches, in the
/// order in which `Html::select` yields them (the order of the parsed tree's
/// node store), the value of its attribute `attr`; `None` when `selector`
/// does not parse as a CSS selector.
pub uninterp spec fn selected_attrs(html: Seq<char>, selector: Seq<char>, attr: Seq<char>) -> Option<Seq<Option<Seq<char>>>>;

/// For each element of the parsed `html` that `selector` matches, in the
/// order in which `Html::select` yields them (the order of the parsed tree's
/// node store), the text nodes below it, in tree order; `None` when
/// `selector` does not parse as a CSS selector.
pub uninterp spec fn selected_texts(html: Seq<char>, selector: Seq<char>) -> Option<Seq<Seq<Seq<char>>>>;

/// `href` resolved against `base` by the url crate, as the scheme and the
/// text of the resulting URL; `None` when `base` does not parse or `href`
/// does not resolve.
pub uninterp spec fn url_join(base: Seq<char>, href: Seq<char>) -> Option<(Seq<char>, Seq<char>)>;

/// Parses `html` with `scraper::Html::parse_document`, `selector` with
/// `scraper::Selector::parse`, and reads `ElementRef::attr(attr)` of each
/// element that `Html::select` yields. The answer depends on the three texts
/// alone; this contract names it and claims nothing more of it.
#[verifier::external_body]
fn select_attrs(html: &str, selector: &str, attr: &str) -> (res: Option<Vec<Option<String>>>)
    ensures
        match res {
            Some(v) => selected_attrs(html@, selector@, attr@) == Some(v@.map_values(|o: Option<String>| opt_view(o))),
            None => selected_attrs(html@, selector@, attr@) == None::<Seq<Option<Seq<char>>>>,
        },
{
    let sel = match Selector::parse(selector) {
        Ok(s) => s,
        Err(_) => return None,
    };
    let document = Html::parse_document(html);
    let mut out = Vec::new();
    for element in document.select(&sel) {
        out.push(element.value().attr(attr).map(|a| a.to_string()));
    }
    Some(out)
}

/// Parses `html` with `scraper::Html::parse_document`, `selector` with
/// `scraper::Selector::parse`, and collects `ElementRef::text()` (the text
/// nodes below the element) of each element that `Html::select` yields. The
/// answer depends on the two texts alone; this contract names it and claims
/// nothing more of it.
#[verifier::external_body]
fn select_texts(html: &str, selector: &str) -> (res: Option<Vec<Vec<String>>>)
    ensures
        selected_texts(html@, selector@) == texts_view(res),
{
    let sel = match Selector::parse(selector) {
        Ok(s) => s,
        Err(_) => return None,
    };
    let document = Html::parse_document(html);
    let mut out = Vec::new();
    for element in document.select(&sel) {
        let mut nodes = Vec::new();
        for text in element.text() {
            nodes.push(text.to_string());
        }
        out.push(nodes);
    }
    Some(out)
}

/// Parses `base` with `url::Url::parse`, resolves `href` against it with
/// `Url::join`, and gives `Url::scheme` and the `Display` text of the result.
/// The answer depends on the two texts alone; this contract names it and
/// claims nothing more of it.
#[verifier::external_body]
fn join_url(base: &str, href: &str) -> (res: Option<(String, String)>)
    ensures
        url_join(base@, href@) == joined_view(res),
{
    let base = url::Url::parse(base).ok()?;
    let absolute = base.join(href).ok()?;
    Some((absolute.scheme().to_string(), absolute.to_string()))
}

/// A resolved link, as text: its scheme and its address.
pub open spec fn joined_view(j: Option<(String, String)>) -> Option<(Seq<char>, Seq<char>)> {
    match j {
        Some((scheme, text)) => Some((scheme@, text@)),
        None => None,
    }
}

/// Per element: its text nodes, as text.
pub open spec fn texts_view(elems: Option<Vec<Vec<String>>>) -> Option<Seq<Seq<Seq<char>>>> {
    match elems {
        Some(v) => Some(v@.map_values(|w: Vec<String>| views(w@))),
        None => None,
    }
}

/// The links kept from resolved `href` values, in order: those that resolved
/// to an `http` or `https` URL.
pub open spec fn http_links(joined: Seq<Option<(Seq<char>, Seq<char>)>>) -> Seq<Seq<char>>
    decreases joined.len(),
{
    if joined.len() == 0 {
        Seq::empty()
    } else {
        let prev = http_links(joined.drop_last());
        match joined.last() {
            Some((scheme, text)) => if scheme == "http"@ || scheme == "https"@ {
                prev.push(text)
            } else {
                prev
            },
            None => prev,
        }
    }
}

/// `href` values resolved against `base`; an element without one resolves to
/// nothing.
pub open spec fn resolve_all(hrefs: Seq<Option<Seq<char>>>, base: Seq<char>) -> Seq<Option<(Seq<char>, Seq<char>)>> {
    hrefs.map_values(
        |h: Option<Seq<char>>|
            match h {
                Some(t) => url_join(base, t),
                None => None,
            },
    )
}

/// The absolute `http`/`https` links of the `<a href>` elements of `html`,
/// resolved against `base_url`, in the order `Html::select` yields them.
pub open spec fn page_links(html: Seq<char>, base_url: Seq<char>) -> Seq<Seq<char>> {
    match selected_attrs(html, "a[href]"@, "href"@) {
        Some(hrefs) => http_links(resolve_all(hrefs, base_url)),
        None => Seq::empty(),
    }
}

/// The link an `href` value gives when resolved against `base`: the
/// resolved URL, when there is a value, it resolves, and the result is an
/// `http` or `https` URL.
pub open spec fn href_link(base: Seq<char>, href: Option<Seq<char>>) -> Option<Seq<char>> {
    match href {
        Some(h) => match url_join(base, h) {
            Some((scheme, text)) => if scheme == "http"@ || scheme == "https"@ {
                Some(text)
            } else {
                None
            },
            None => None,
        },
        None => None,
    }
}

/// The link a resolved `href` gives: its URL when it is `http` or `https`.
pub open spec fn http_entry(j: Option<(Seq<char>, Seq<char>)>) -> Option<Seq<char>> {
    match j {
        Some((scheme, text)) => if scheme == "http"@ || scheme == "https"@ {
            Some(text)
        } else {
            None
        },
        None => None,
    }
}

proof fn lemma_http_links_members(joined: Seq<Option<(Seq<char>, Seq<char>)>>)
    ensures
        http_links(joined).len() <= joined.len(),
        forall|t: Seq<char>| #[trigger] http_links(joined).contains(t) <==> exists|i: int|
            0 <= i < joined.len() && #[trigger] http_entry(joined[i]) == Some(t),
    decreases joined.len(),
{
    if joined.len() > 0 {
        let j0 = joined.drop_last();
        lemma_http_links_members(j0);
        let prev = http_links(j0);
        let cur = http_links(joined);
        let n = joined.len() - 1;
        assert(joined[n] == joined.last());
        assert(forall|i: int| 0 <= i < n ==> #[trigger] j0[i] == joined[i]);
        match http_entry(joined.last()) {
            Some(x) => {
                assert(cur == prev.push(x));
                assert forall|t: Seq<char>| #[trigger] cur.contains(t) <==> exists|i: int|
                    0 <= i < joined.len() && #[trigger] http_entry(joined[i]) == Some(t) by {
                    if cur.contains(t) {
                        let k = choose|k: int| 0 <= k < cur.len() && cur[k] == t;
                        if k < prev.len() {
                            assert(prev[k] == t);
                            assert(prev.contains(t));
                            let i = choose|i: int| 0 <= i < j0.len() && #[trigger] http_entry(j0[i]) == Some(t);
                            assert(http_entry(joined[i]) == Some(t));
                        } else {
                            assert(http_entry(joined[n]) == Some(t));
                        }
                    }
                    if exists|i: int| 0 <= i < joined.len() && #[trigger] http_entry(joined[i]) == Some(t) {
                        let i = choose|i: int| 0 <= i < joined.len() && #[trigger] http_entry(joined[i]) == Some(t);
                        if i < n {
                            assert(http_entry(j0[i]) == Some(t));
                            assert(prev.contains(t));
                            let k = choose|k: int| 0 <= k < prev.len() && prev[k] == t;
                            assert(cur[k] == t);
                        } else {
                            assert(cur[prev.len() as int] == t);
                        }
                    }
                }
            },
            None => {
                assert(cur == prev);
                assert forall|t: Seq<char>| #[trigger] cur.contains(t) <==> exists|i: int|
                    0 <= i < joined.len() && #[trigger] http_entry(joined[i]) == Some(t) by {
                    if cur.contains(t) {
                        let i = choose|i: int| 0 <= i < j0.len() && #[trigger] http_entry(j0[i]) == Some(t);
                        assert(http_entry(joined[i]) == Some(t));
                    }
                    if exists|i: int| 0 <= i < joined.len() && #[trigger] http_entry(joined[i]) == Some(t) {
                        let i = choose|i: int| 0 <= i < joined.len() && #[trigger] http_entry(joined[i]) == Some(t);
                        assert(i < n);
                        assert(http_entry(j0[i]) == Some(t));
                    }
                }
            },
        }
    }
}

/// The links of a page are exactly the `http`/`https` resolutions of the
/// `href` values of its `<a href>` elements, at most one per element: no
/// other element contributes, and without a parsable selector there are none.
pub proof fn lemma_links_are_anchor_links(html: Seq<char>, base: Seq<char>)
    ensures
        selected_attrs(html, "a[href]"@, "href"@) is None ==> page_links(html, base).len() == 0,
        selected_attrs(html, "a[href]"@, "href"@) matches Some(hrefs) ==> {
            &&& page_links(html, base).len() <= hrefs.len()
            &&& forall|t: Seq<char>| #[trigger] page_links(html, base).contains(t) <==> exists|i: int|
                0 <= i < hrefs.len() && #[trigger] href_link(base, hrefs[i]) == Some(t)
        },
{
    match selected_attrs(html, "a[href]"@, "href"@) {
        None => {},
        Some(hrefs) => {
            let js = resolve_all(hrefs, base);
            lemma_http_links_members(js);
            assert forall|t: Seq<char>| #[trigger] page_links(html, base).contains(t) <==> exists|i: int|
                0 <= i < hrefs.len() && #[trigger] href_link(base, hrefs[i]) == Some(t) by {
                if page_links(html, base).contains(t) {
                    let i = choose|i: int|
                        0 <= i < js.len() && #[trigger] http_entry(js[i]) == Some(t);
                    assert(href_link(base, hrefs[i]) == Some(t));
                }
                if exists|i: int| 0 <= i < hrefs.len() && #[trigger] href_link(base, hrefs[i]) == Some(t) {
                    let i = choose|i: int| 0 <= i < hrefs.len() && #[trigger] href_link(base, hrefs[i]) == Some(t);
                    assert(http_entry(js[i]) == Some(t));
                }
            }
        },
    }
}

/// The characters of the pieces, one after the other.
pub open spec fn concat(parts: Seq<Seq<char>>) -> Seq<char>
    decreases parts.len(),
{
    if parts.len() == 0 {
        Seq::empty()
    } else {
        concat(parts.drop_last()) + parts.last()
    }
}

/// The title given the text nodes of the `<title>` elements: those of the
/// first, one after the other, or `(No title)`.
pub open spec fn title_from(elems: Option<Seq<Seq<Seq<char>>>>) -> Seq<char> {
    match elems {
        Some(e) => if e.len() > 0 {
            concat(e[0])
        } else {
            "(No title)"@
        },
        None => "(No title)"@,
    }
}

/// The page title: the text of the first `<title>` element that
/// `Html::select` yields, or `(No title)`.
pub open spec fn page_title(html: Seq<char>) -> Seq<char> {
    title_from(selected_texts(html, "title"@))
}

/// The text nodes, trimmed, without the empty ones.
pub open spec fn text_parts(nodes: Seq<Seq<char>>) -> Seq<Seq<char>>
    decreases nodes.len(),
{
    if nodes.len() == 0 {
        Seq::empty()
    } else {
        let prev = text_parts(nodes.drop_last());
        let t = trim(nodes.last());
        if t.len() > 0 {
            prev.push(t)
        } else {
            prev
        }
    }
}

/// The text given the text nodes of the `<body>` elements: the non-blank
/// ones of the first, trimmed and joined by single spaces.
pub open spec fn text_from(elems: Option<Seq<Seq<Seq<char>>>>) -> Seq<char> {
    match elems {
        Some(e) => if e.len() > 0 {
            join(text_parts(e[0]), " "@)
        } else {
            Seq::empty()
        },
        None => Seq::empty(),
    }
}

/// The page text: the non-blank text nodes below the first `<body>` element that
/// `Html::select` yields, trimmed and joined by single spaces.
pub open spec fn page_text(html: Seq<char>) -> Seq<char> {
    text_from(selected_texts(html, "body"@))
}

/// The page text joins the trimmed text nodes of the first `<body>` with one
/// space, dropping blank nodes: two words with a blank node between them
/// read as the two words and one space; a document without a `<body>` match,
/// or with a selector that does not parse, has no text.
pub proof fn lemma_text_joins_words(x: Seq<char>, w: Seq<char>, y: Seq<char>, more: Seq<Seq<Seq<char>>>)
    requires
        x.len() > 0 && !is_space(x[0]) && !is_space(x.last()),
        y.len() > 0 && !is_space(y[0]) && !is_space(y.last()),
        trim(w).len() == 0,
    ensures
        text_from(Some(seq![seq![x, w, y]] + more)) == x + " "@ + y,
        text_from(Some(Seq::<Seq<Seq<char>>>::empty())).len() == 0,
        text_from(None).len() == 0,
{
    let nodes = seq![x, w, y];
    assert((seq![nodes] + more)[0] == nodes);
    assert(trim_start(x) == x);
    assert(trim_end(x) == x);
    assert(trim_start(y) == y);
    assert(trim_end(y) == y);
    assert(nodes.drop_last() =~= seq![x, w]);
    assert(seq![x, w].drop_last() =~= seq![x]);
    assert(seq![x].drop_last() =~= Seq::<Seq<char>>::empty());
    assert(seq![x].last() == x);
    assert(trim(x) == x);
    assert(text_parts(Seq::<Seq<char>>::empty()) == Seq::<Seq<char>>::empty());
    assert(Seq::<Seq<char>>::empty().push(x) =~= seq![x]);
    assert(text_parts(seq![x]) =~= seq![x]);
    assert(seq![x, w].last() == w);
    assert(nodes.last() == y);
    assert(trim(y) == y);
    assert(text_parts(seq![x, w]) =~= seq![x]);
    assert(text_parts(nodes) =~= seq![x, y]);
    assert(seq![x, y].drop_last() =~= seq![x]);
    assert(join(seq![x], " "@) == x);
}

/// The page title is the text nodes of the first `<title>` put together, with
/// nothing added between them; without a `<title>` match, or with a selector
/// that does not parse, it is `(No title)`.
pub proof fn lemma_title_concatenates(x: Seq<char>, y: Seq<char>, more: Seq<Seq<Seq<char>>>)
    ensures
        title_from(Some(seq![seq![x, y]] + more)) == x + y,
        title_from(Some(Seq::<Seq<Seq<char>>>::empty())) == "(No title)"@,
        title_from(None) == "(No title)"@,
{
    let nodes = seq![x, y];
    assert((seq![nodes] + more)[0] == nodes);
    assert(nodes.drop_last() =~= seq![x]);
    assert(seq![x].drop_last() =~= Seq::<Seq<char>>::empty());
    assert(seq![x].last() == x);
    assert(concat(Seq::<Seq<char>>::empty()) == Seq::<char>::empty());
    assert(Seq::<char>::empty() + x =~= x);
    assert(concat(seq![x]) =~= x);
    assert(nodes.last() == y);
}

/// The resolved links that are `http` or `https` URLs, in order.
pub fn keep_http_links(joined: &Vec<Option<(String, String)>>) -> (res: Vec<String>)
    ensures
        views(res@) == http_links(joined@.map_values(|j: Option<(String, String)>| joined_view(j))),
{
    let ghost jv = joined@.map_values(|j: Option<(String, String)>| joined_view(j));
    let http = to_chars("http");
    let https = to_chars("https");
    let mut links: Vec<String> = Vec::new();
    let mut i: usize = 0;
    assert(views(links@) =~= http_links(jv.take(0)));
    while i < joined.len()
        invariant
            i <= joined@.len(),
            jv == joined@.map_values(|j: Option<(String, String)>| joined_view(j)),
            http@ == "http"@,
            https@ == "https"@,
            views(links@) == http_links(jv.take(i as int)),
        decreases joined.len() - i,
    {
        assert(jv.take(i + 1).drop_last() =~= jv.take(i as int));
        assert(jv.take(i + 1).last() == joined_view(joined@[i as int]));
        match &joined[i] {
            Some((scheme, text)) => {
                let sc = to_chars(scheme.as_str());
                if chars_eq(sc.as_slice(), http.as_slice()) || chars_eq(sc.as_slice(), https.as_slice()) {
                    let ghost before = links@;
                    links.push(text.clone());
                    assert(views(links@) =~= views(before).push(text@));
                }
            },
            None => {},
        }
        i = i + 1;
    }
    assert(jv.take(joined@.len() as int) =~= jv);
    links
}

/// The absolute `http`/`https` links of the page, in the order
/// `Html::select` yields its `<a href>` elements.
pub fn extract_links(html: &str, base_url: &str) -> (res: Vec<String>)
    ensures
        views(res@) == page_links(html@, base_url@),
{
    let hrefs = match select_attrs(html, "a[href]", "href") {
        Some(v) => v,
        None => {
            let none: Vec<String> = Vec::new();
            assert(views(none@) =~= Seq::<Seq<char>>::empty());
            return none;
        },
    };
    let ghost hv = hrefs@.map_values(|o: Option<String>| opt_view(o));
    let mut joined: Vec<Option<(String, String)>> = Vec::new();
    let mut i: usize = 0;
    while i < hrefs.len()
        invariant
            i <= hrefs@.len(),
            hv == hrefs@.map_values(|o: Option<String>| opt_view(o)),
            joined@.len() == i,
            forall|k: int| 0 <= k < i ==> #[trigger] joined_view(joined@[k]) == resolve_all(hv, base_url@)[k],
        decreases hrefs.len() - i,
    {
        let j = match &hrefs[i] {
            Some(href) => join_url(base_url, href.as_str()),
            None => None,
        };
        joined.push(j);
        i = i + 1;
    }
    assert(joined@.map_values(|j: Option<(String, String)>| joined_view(j)) =~= resolve_all(hv, base_url@));
    keep_http_links(&joined)
}

/// The title given the text nodes of each `<title>` element (see [`title_from`]).
pub fn title_of(elems: &Option<Vec<Vec<String>>>) -> (res: String)
    ensures
        res@ == title_from(texts_view(*elems)),
{
    let elems = match elems {
        Some(v) => v,
        None => return String::from_str("(No title)"),
    };
    if elems.len() == 0 {
        return String::from_str("(No title)");
    }
    let nodes = &elems[0];
    let ghost nv = views(nodes@);
    let mut out: Vec<char> = Vec::new();
    let mut i: usize = 0;
    assert(nv.take(0) =~= Seq::<Seq<char>>::empty());
    while i < nodes.len()
        invariant
            i <= nodes@.len(),
            nv == views(nodes@),
            out@ == concat(nv.take(i as int)),
        decreases nodes.len() - i,
    {
        assert(nv.take(i + 1).drop_last() =~= nv.take(i as int));
        let piece = to_chars(nodes[i].as_str());
        let mut k: usize = 0;
        let ghost start = out@;
        while k < piece.len()
            invariant
                k <= piece@.len(),
                out@ == start + piece@.take(k as int),
            decreases piece.len() - k,
        {
            out.push(piece[k]);
            assert(piece@.take(k + 1) =~= piece@.take(k as int).push(piece@[k as int]));
            assert(out@ =~= start + piece@.take(k + 1));
            k = k + 1;
        }
        assert(piece@.take(piece@.len() as int) =~= piece@);
        i = i + 1;
    }
    assert(nv.take(nodes@.len() as int) =~= nv);
    chars_to_string(out.as_slice())
}

/// The text of the first `<title>` element that `Html::select` yields, or
/// `(No title)`.
pub fn extract_title(html: &str) -> (res: String)
    ensures
        res@ == page_title(html@),
{
    let elems = select_texts(html, "title");
    title_of(&elems)
}

/// The text given the text nodes of each `<body>` element (see [`text_from`]).
pub fn text_of(elems: &Option<Vec<Vec<String>>>) -> (res: String)
    ensures
        res@ == text_from(texts_view(*elems)),
{
    let elems = match elems {
        Some(v) => v,
        None => return String::new(),
    };
    if elems.len() == 0 {
        return String::new();
    }
    let nodes = &elems[0];
    let ghost nv = views(nodes@);
    let mut out: Vec<char> = Vec::new();
    let mut count: usize = 0;
    let mut i: usize = 0;
    assert(nv.take(0) =~= Seq::<Seq<char>>::empty());
    while i < nodes.len()
        invariant
            i <= nodes@.len(),
            nv == views(nodes@),
            count <= i,
            count == text_parts(nv.take(i as int)).len(),
            out@ == join(text_parts(nv.take(i as int)), " "@),
        decreases nodes.len() - i,
    {
        assert(nv.take(i + 1).drop_last() =~= nv.take(i as int));
        let ghost prev = text_parts(nv.take(i as int));
        let chars = to_chars(nodes[i].as_str());
        let t = trim_chars(chars.as_slice());
        if t.len() > 0 {
            let ghost start = out@;
            if count > 0 {
                out.push(' ');
            }
            let ghost mid = out@;
            let mut k: usize = 0;
            while k < t.len()
                invariant
                    k <= t@.len(),
                    out@ == mid + t@.take(k as int),
                decreases t.len() - k,
            {
                out.push(t[k]);
                assert(t@.take(k + 1) =~= t@.take(k as int).push(t@[k as int]));
                assert(out@ =~= mid + t@.take(k + 1));
                k = k + 1;
            }
            assert(t@.take(t@.len() as int) =~= t@);
            proof {
                let parts = prev.push(t@);
                assert(parts.drop_last() =~= prev);
                if count == 0 {
                    assert(out@ =~= t@);
                } else {
                    assert(mid =~= start + " "@) by {
                        reveal_strlit(" ");
                    }
                    assert(out@ =~= join(prev, " "@) + " "@ + t@);
                }
            }
            count = count + 1;
        }
        i = i + 1;
    }
    assert(nv.take(nodes@.len() as int) =~= nv);
    chars_to_string(out.as_slice())
}

/// The non-blank text nodes below the first `<body>` element that
/// `Html::select` yields, trimmed and joined by single spaces.
///
/// `<script>` and `<style>` elements are no text nodes and add nothing of
/// their own; the text inside them is text nodes below `<body>` and counts.
pub fn extract_text(html: &str) -> (res: String)
    ensures
        res@ == page_text(html@),
{
    let elems = select_texts(html, "body");
    text_of(&elems)
}

/// The message a fetcher reports for the page at `url`, `depth` links from
/// the seed, whose body is `html`.
pub fn page_result(url: String, depth: u32, html: &str) -> (res: PageResult)
    ensures
        res@ == (PageResultView {
            url: url@,
            title: page_title(html@),
            links: page_links(html@, url@),
            text: page_text(html@),
            depth: depth,
        }),
{
    let title = extract_title(html);
    let links = extract_links(html, url.as_str());
    let text = extract_text(html);
    PageResult { url, title, links, text, depth }
}

} // verus!
