use vstd::prelude::*;

use crate::document::{document_result, render_document, DocError};
use crate::templates::{entries_view, home, home_page, Ramen, RamenView};

verus! {

/// A file name that ends in `.md` after a non-empty stem.
pub open spec fn is_markdown(name: Seq<char>) -> bool {
    name.len() > 3 && name.subrange(name.len() - 3, name.len() as int) == ".md"@
}

/// The name a source file has in the destination: a markdown file takes the
/// `.html` extension, any other file keeps its name.
pub open spec fn output_name_of(name: Seq<char>) -> Seq<char> {
    if is_markdown(name) {
        name.subrange(0, name.len() - 3) + ".html"@
    } else {
        name
    }
}

/// A markdown file `X.md` becomes `X.html`; any other file keeps its name.
pub proof fn law_extension_mapping(stem: Seq<char>, other: Seq<char>)
    requires
        stem.len() > 0,
        !is_markdown(other),
    ensures
        is_markdown(stem + ".md"@),
        output_name_of(stem + ".md"@) == stem + ".html"@,
        output_name_of(other) == other,
{
    reveal_strlit(".md");
    let n = stem + ".md"@;
    assert(n.subrange(n.len() - 3, n.len() as int) =~= ".md"@);
    assert(n.subrange(0, n.len() - 3) =~= stem);
}

/// Whether a file name names a markdown document.
pub fn is_markdown_name(name: &str) -> (b: bool)
    ensures
        b == is_markdown(name@),
{
    let n = name.unicode_len();
    if n <= 3 {
        return false;
    }
    let b = name.get_char(n - 3) == '.' && name.get_char(n - 2) == 'm' && name.get_char(n - 1)
        == 'd';
    proof {
        reveal_strlit(".md");
        if b {
            assert(name@.subrange(n - 3, n as int) =~= ".md"@);
        } else {
            if name@.subrange(n - 3, n as int) == ".md"@ {
                assert(name@.subrange(n - 3, n as int)[0] == '.');
                assert(name@.subrange(n - 3, n as int)[1] == 'm');
                assert(name@.subrange(n - 3, n as int)[2] == 'd');
            }
        }
    }
    b
}

/// The name that a source file has in the destination.
pub fn output_name(name: &str) -> (r: String)
    ensures
        r@ == output_name_of(name@),
{
    if is_markdown_name(name) {
        let n = name.unicode_len();
        let mut s = String::from_str(name.substring_char(0, n - 3));
        s.append(".html");
        s
    } else {
        String::from_str(name)
    }
}

/// What the build does with one entry of the source directory.
#[derive(Debug)]
pub enum EntryAction {
    /// A directory: left alone.
    Skip,
    /// A markdown document: rendered to the page of this name.
    Render(String),
    /// Any other file: copied under this name.
    Copy(String),
}

/// Decides what the build does with the source entry `name`.
pub fn plan_entry(name: &str, is_dir: bool) -> (r: EntryAction)
    ensures
        is_dir ==> r is Skip,
        !is_dir && is_markdown(name@) ==> r is Render && r->Render_0@ == output_name_of(name@),
        !is_dir && !is_markdown(name@) ==> r is Copy && r->Copy_0@ == name@,
{
    if is_dir {
        EntryAction::Skip
    } else if is_markdown_name(name) {
        EntryAction::Render(output_name(name))
    } else {
        EntryAction::Copy(String::from_str(name))
    }
}

/// Documents `(file name, text)` as plain values.
pub open spec fn docs_view(docs: Seq<(String, String)>) -> Seq<(Seq<char>, Seq<char>)> {
    docs.map_values(|d: (String, String)| (d.0@, d.1@))
}

/// The documents rendered in order, each as `(page file name, header, page)`,
/// or the error of the first one that cannot be read.
pub open spec fn rendered_docs(docs: Seq<(Seq<char>, Seq<char>)>) -> Result<
    Seq<(Seq<char>, RamenView, Seq<char>)>,
    DocError,
>
    decreases docs.len(),
{
    if docs.len() == 0 {
        Ok(Seq::empty())
    } else {
        match rendered_docs(docs.drop_last()) {
            Err(e) => Err(e),
            Ok(done) => match document_result(docs.last().1) {
                Err(e) => Err(e),
                Ok((h, page)) => Ok(done.push((output_name_of(docs.last().0), h, page))),
            },
        }
    }
}

/// The pages `(file name, text)` of rendered documents.
pub open spec fn page_list(done: Seq<(Seq<char>, RamenView, Seq<char>)>) -> Seq<
    (Seq<char>, Seq<char>),
> {
    done.map_values(|t: (Seq<char>, RamenView, Seq<char>)| (t.0, t.2))
}

/// The index entries `(file name, header)` of rendered documents.
pub open spec fn index_entries(done: Seq<(Seq<char>, RamenView, Seq<char>)>) -> Seq<
    (Seq<char>, RamenView),
> {
    done.map_values(|t: (Seq<char>, RamenView, Seq<char>)| (t.0, t.1))
}

/// What a build gives: the pages and the index page, or the first error.
pub open spec fn site_result(docs: Seq<(Seq<char>, Seq<char>)>) -> Result<
    (Seq<(Seq<char>, Seq<char>)>, Seq<char>),
    DocError,
> {
    match rendered_docs(docs) {
        Err(e) => Err(e),
        Ok(done) => Ok((page_list(done), home_page(index_entries(done)))),
    }
}

/// The output of a build: each page with its file name, and the index page.
pub struct Site {
    /// `(file name, page text)` for each document, in order.
    pub pages: Vec<(String, String)>,
    /// The text of the index page.
    pub index: String,
}

/// A build result as plain values.
pub open spec fn site_view(r: Result<Site, DocError>) -> Result<
    (Seq<(Seq<char>, Seq<char>)>, Seq<char>),
    DocError,
> {
    match r {
        Ok(site) => Ok((docs_view(site.pages@), site.index@)),
        Err(e) => Err(e),
    }
}

/// Once a document fails, the build fails with its error, whatever follows.
proof fn lemma_error_stays(docs: Seq<(Seq<char>, Seq<char>)>, i: int, e: DocError)
    requires
        0 <= i <= docs.len(),
        rendered_docs(docs.take(i)) == Err::<Seq<(Seq<char>, RamenView, Seq<char>)>, DocError>(e),
    ensures
        rendered_docs(docs) == Err::<Seq<(Seq<char>, RamenView, Seq<char>)>, DocError>(e),
    decreases docs.len() - i,
{
    if i < docs.len() {
        assert(docs.take(i + 1).drop_last() =~= docs.take(i));
        lemma_error_stays(docs, i + 1, e);
    } else {
        assert(docs.take(i) =~= docs);
    }
}

/// Renders every document `(file name, text)` and the index page over them,
/// stopping at the first document that cannot be read.
pub fn build_site(docs: &Vec<(String, String)>) -> (r: Result<Site, DocError>)
    ensures
        site_view(r) == site_result(docs_view(docs@)),
{
    let ghost d = docs_view(docs@);
    let mut pages: Vec<(String, String)> = Vec::new();
    let mut listed: Vec<(String, Ramen)> = Vec::new();
    let ghost mut done: Seq<(Seq<char>, RamenView, Seq<char>)> = Seq::empty();
    let mut i: usize = 0;
    proof {
        assert(d.take(0) =~= Seq::<(Seq<char>, Seq<char>)>::empty());
        assert(docs_view(pages@) =~= page_list(done));
        assert(entries_view(listed@) =~= index_entries(done));
    }
    while i < docs.len()
        invariant
            i <= docs@.len(),
            d == docs_view(docs@),
            rendered_docs(d.take(i as int)) == Ok::<
                Seq<(Seq<char>, RamenView, Seq<char>)>,
                DocError,
            >(done),
            docs_view(pages@) == page_list(done),
            entries_view(listed@) == index_entries(done),
        decreases docs@.len() - i,
    {
        proof {
            assert(d.take(i + 1).drop_last() =~= d.take(i as int));
            assert(d.take(i + 1).last() == d[i as int]);
        }
        let (doc, page) = match render_document(docs[i].1.as_str()) {
            Err(e) => {
                proof {
                    lemma_error_stays(d, i + 1, e);
                }
                return Err(e);
            },
            Ok(p) => p,
        };
        let name = output_name(docs[i].0.as_str());
        let ghost t = (name@, doc@, page@);
        let ghost old_pages = pages@;
        let ghost old_listed = listed@;
        let ghost old_done = done;
        let key = name.clone();
        listed.push((key, doc));
        pages.push((name, page));
        proof {
            assert(docs_view(old_pages).len() == old_pages.len());
            assert(page_list(old_done).len() == old_done.len());
            assert(entries_view(old_listed).len() == old_listed.len());
            done = done.push(t);
            assert(page_list(done).len() == done.len());
            assert(index_entries(done).len() == done.len());
            assert forall|k: int| 0 <= k < pages@.len() implies docs_view(pages@)[k] == page_list(
                done,
            )[k] by {
                if k < old_pages.len() {
                    assert(pages@[k] == old_pages[k]);
                    assert(done[k] == old_done[k]);
                    assert(docs_view(old_pages)[k] == page_list(old_done)[k]);
                } else {
                    assert(done[k] == t);
                }
            }
            assert forall|k: int| 0 <= k < listed@.len() implies entries_view(listed@)[k]
                == index_entries(done)[k] by {
                if k < old_listed.len() {
                    assert(listed@[k] == old_listed[k]);
                    assert(done[k] == old_done[k]);
                    assert(entries_view(old_listed)[k] == index_entries(old_done)[k]);
                } else {
                    assert(done[k] == t);
                }
            }
            assert(docs_view(pages@) =~= page_list(done));
            assert(entries_view(listed@) =~= index_entries(done));
        }
        i = i + 1;
    }
    proof {
        assert(d.take(docs@.len() as int) =~= d);
    }
    let index = home(listed);
    Ok(Site { pages, index })
}

/// A build is a function of the documents' names and texts: building the same
/// source twice gives the same pages and the same index page.
pub proof fn law_rebuild_identical(
    a: Seq<(Seq<char>, Seq<char>)>,
    b: Seq<(Seq<char>, Seq<char>)>,
)
    requires
        a == b,
    ensures
        site_result(a) == site_result(b),
{
}

/// Building no documents gives no pages and an index with an empty listing.
pub proof fn law_empty_build()
    ensures
        site_result(Seq::empty()) == Ok::<(Seq<(Seq<char>, Seq<char>)>, Seq<char>), DocError>(
            (Seq::empty(), home_page(Seq::empty())),
        ),
{
    assert(page_list(Seq::empty()) =~= Seq::empty());
    assert(index_entries(Seq::empty()) =~= Seq::empty());
}

} // verus!
