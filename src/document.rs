use vstd::prelude::*;

use crate::templates::{ramen, ramen_page, Ramen, RamenView};

verus! {

#[verifier::external_type_specification]
#[verifier::external_body]
pub struct ExYamlError(serde_yaml::Error);

/// The entries, in key order, of the text read as a YAML mapping from strings
/// to strings; `None` where it does not read as one.
pub uninterp spec fn yaml_string_map(text: Seq<char>) -> Option<Seq<(Seq<char>, Seq<char>)>>;

/// The HTML fragment that CommonMark text renders to.
pub uninterp spec fn markdown_html(md: Seq<char>) -> Seq<char>;

/// Pairs of strings as plain values.
pub open spec fn pairs_view(ps: Seq<(String, String)>) -> Seq<(Seq<char>, Seq<char>)> {
    ps.map_values(|p: (String, String)| (p.0@, p.1@))
}

/// Relies on serde_yaml::from_str, read into a BTreeMap<String, String> (every
/// scalar reads as a string): whether it succeeds, and the entries, which come
/// in key order, depend on the text alone.
#[verifier::external_body]
fn read_yaml_strings(text: &str) -> (r: Result<Vec<(String, String)>, serde_yaml::Error>)
    ensures
        r is Ok <==> yaml_string_map(text@) is Some,
        r is Ok ==> yaml_string_map(text@) == Some(pairs_view(r->Ok_0@)),
{
    serde_yaml::from_str::<std::collections::BTreeMap<String, String>>(text).map(
        |m| m.into_iter().collect(),
    )
}

/// Relies on pulldown_cmark::Parser::new and pulldown_cmark::html::push_html:
/// the HTML fragment of CommonMark text, which depends on the text alone.
#[verifier::external_body]
fn markdown_to_html(md: &str) -> (r: String)
    ensures
        r@ == markdown_html(md@),
{
    let mut out = String::new();
    pulldown_cmark::html::push_html(&mut out, pulldown_cmark::Parser::new(md));
    out
}

/// A required field of a document's header.
#[derive(Clone, Copy, Debug, PartialEq, Eq, Structural)]
pub enum HeaderField {
    Name,
    Image,
    Location,
}

/// Why a document could not be read.
#[derive(Clone, Copy, Debug, PartialEq, Eq, Structural)]
pub enum DocError {
    /// The text does not hold two header markers.
    MissingHeaderBlock,
    /// The header between the markers is not a YAML mapping of strings.
    UnreadableHeader,
    /// A required field is absent or is not a string.
    InvalidHeader(HeaderField),
}

/// The key of a header field.
pub open spec fn field_key(f: HeaderField) -> Seq<char> {
    match f {
        HeaderField::Name => "name"@,
        HeaderField::Image => "image"@,
        HeaderField::Location => "location"@,
    }
}

/// The message that describes an error.
pub open spec fn error_message(e: DocError) -> Seq<char> {
    match e {
        DocError::MissingHeaderBlock => "malformed document: missing header block"@,
        DocError::UnreadableHeader => "invalid header: not a YAML mapping of strings"@,
        DocError::InvalidHeader(f) => "invalid header: "@ + field_key(f) + " missing or wrong type"@,
    }
}

impl DocError {
    /// The message that describes this error.
    pub fn message(&self) -> (r: String)
        ensures
            r@ == error_message(*self),
    {
        match self {
            DocError::MissingHeaderBlock => String::from_str("malformed document: missing header block"),
            DocError::UnreadableHeader => String::from_str("invalid header: not a YAML mapping of strings"),
            DocError::InvalidHeader(f) => {
                let mut s = String::from_str("invalid header: ");
                match f {
                    HeaderField::Name => s.append("name"),
                    HeaderField::Image => s.append("image"),
                    HeaderField::Location => s.append("location"),
                }
                s.append(" missing or wrong type");
                s
            },
        }
    }
}

/// A header marker `---` starts at index `k`.
pub open spec fn marker_at(s: Seq<char>, k: int) -> bool {
    0 <= k && k + 3 <= s.len() && s[k] == '-' && s[k + 1] == '-' && s[k + 2] == '-'
}

/// No marker starts in `[a, b)`.
pub open spec fn no_marker_in(s: Seq<char>, a: int, b: int) -> bool {
    forall|k: int| a <= k < b ==> !marker_at(s, k)
}

/// `i` is the first marker of `s`, and `j` the first one after it.
pub open spec fn markers_at(s: Seq<char>, i: int, j: int) -> bool {
    marker_at(s, i) && no_marker_in(s, 0, i) && i + 3 <= j && marker_at(s, j) && no_marker_in(
        s,
        i + 3,
        j,
    )
}

/// The text holds a header block: two markers.
pub open spec fn has_header_block(s: Seq<char>) -> bool {
    exists|i: int, j: int| markers_at(s, i, j)
}

/// The header text: what stands between the first two markers.
pub open spec fn header_text(s: Seq<char>) -> Seq<char> {
    let (i, j) = choose|i: int, j: int| markers_at(s, i, j);
    s.subrange(i + 3, j)
}

/// The markdown body: what follows the second marker.
pub open spec fn body_text(s: Seq<char>) -> Seq<char> {
    let (i, j) = choose|i: int, j: int| markers_at(s, i, j);
    s.subrange(j + 3, s.len() as int)
}

/// The first two markers of a text are where they are.
pub proof fn lemma_markers_unique(s: Seq<char>, i: int, j: int, i2: int, j2: int)
    requires
        markers_at(s, i, j),
        markers_at(s, i2, j2),
    ensures
        i == i2,
        j == j2,
{
    if i < i2 {
        assert(!marker_at(s, i));
    }
    if i2 < i {
        assert(!marker_at(s, i2));
    }
    if j < j2 {
        assert(!marker_at(s, j));
    }
    if j2 < j {
        assert(!marker_at(s, j2));
    }
}

/// A text in which the marker occurs once has no header block.
pub proof fn law_single_marker(s: Seq<char>, i: int)
    requires
        marker_at(s, i),
        forall|k: int| marker_at(s, k) ==> k == i,
    ensures
        !has_header_block(s),
{
    if has_header_block(s) {
        let (a, b) = choose|a: int, b: int| markers_at(s, a, b);
        assert(marker_at(s, a) && marker_at(s, b));
    }
}

/// The first marker at or after `from`.
fn find_marker(s: &str, n: usize, from: usize) -> (r: Option<usize>)
    requires
        n == s@.len(),
    ensures
        match r {
            Some(j) => from <= j && marker_at(s@, j as int) && no_marker_in(s@, from as int, j as int),
            None => no_marker_in(s@, from as int, s@.len() as int),
        },
{
    let mut k: usize = from;
    while k < n && n - k >= 3
        invariant
            n == s@.len(),
            from <= k,
            no_marker_in(s@, from as int, k as int),
        decreases n - k,
    {
        if s.get_char(k) == '-' && s.get_char(k + 1) == '-' && s.get_char(k + 2) == '-' {
            return Some(k);
        }
        k = k + 1;
    }
    None
}

/// Splits a document into its header text and its markdown body.
pub fn split_front_matter(source: &str) -> (r: Result<(String, String), DocError>)
    ensures
        match r {
            Ok((h, b)) => has_header_block(source@) && h@ == header_text(source@) && b@
                == body_text(source@),
            Err(e) => e == DocError::MissingHeaderBlock && !has_header_block(source@),
        },
{
    let n = source.unicode_len();
    let first = find_marker(source, n, 0);
    match first {
        None => {
            assert(!has_header_block(source@)) by {
                if has_header_block(source@) {
                    let (i, j) = choose|i: int, j: int| markers_at(source@, i, j);
                    assert(marker_at(source@, i));
                }
            }
            Err(DocError::MissingHeaderBlock)
        },
        Some(i) => {
            let second = find_marker(source, n, i + 3);
            match second {
                None => {
                    assert(!has_header_block(source@)) by {
                        if has_header_block(source@) {
                            let (i2, j2) = choose|i2: int, j2: int| markers_at(source@, i2, j2);
                            if i2 < i {
                                assert(!marker_at(source@, i2));
                            }
                            if i < i2 {
                                assert(!marker_at(source@, i as int));
                            }
                            assert(marker_at(source@, j2));
                        }
                    }
                    Err(DocError::MissingHeaderBlock)
                },
                Some(j) => {
                    proof {
                        assert(markers_at(source@, i as int, j as int));
                        let (i2, j2) = choose|i2: int, j2: int| markers_at(source@, i2, j2);
                        lemma_markers_unique(source@, i as int, j as int, i2, j2);
                    }
                    let h = source.substring_char(i + 3, j);
                    let b = source.substring_char(j + 3, n);
                    Ok((String::from_str(h), String::from_str(b)))
                },
            }
        },
    }
}


/// An optional string as a plain value.
pub open spec fn opt_view(o: Option<String>) -> Option<Seq<char>> {
    match o {
        Some(t) => Some(t@),
        None => None,
    }
}

/// A header result as plain values.
pub open spec fn header_result_view(r: Result<Ramen, DocError>) -> Result<RamenView, DocError> {
    match r {
        Ok(d) => Ok(d@),
        Err(e) => Err(e),
    }
}

/// The header made of three fields: the first one absent, in the order name,
/// image, location, is the error.
pub open spec fn fields_header(
    name: Option<Seq<char>>,
    image: Option<Seq<char>>,
    location: Option<Seq<char>>,
) -> Result<RamenView, DocError> {
    match (name, image, location) {
        (None, _, _) => Err(DocError::InvalidHeader(HeaderField::Name)),
        (Some(_), None, _) => Err(DocError::InvalidHeader(HeaderField::Image)),
        (Some(_), Some(_), None) => Err(DocError::InvalidHeader(HeaderField::Location)),
        (Some(n), Some(i), Some(l)) => Ok(RamenView { name: n, image: i, location: l }),
    }
}

/// The value of the last entry with key `key`.
pub open spec fn value_of(ps: Seq<(Seq<char>, Seq<char>)>, key: Seq<char>) -> Option<Seq<char>>
    decreases ps.len(),
{
    if ps.len() == 0 {
        None
    } else if ps.last().0 == key {
        Some(ps.last().1)
    } else {
        value_of(ps.drop_last(), key)
    }
}

/// The header that the entries of a mapping give.
pub open spec fn header_of(ps: Seq<(Seq<char>, Seq<char>)>) -> Result<RamenView, DocError> {
    fields_header(value_of(ps, "name"@), value_of(ps, "image"@), value_of(ps, "location"@))
}

/// The header that a header text gives.
pub open spec fn parsed_header(text: Seq<char>) -> Result<RamenView, DocError> {
    match yaml_string_map(text) {
        None => Err(DocError::UnreadableHeader),
        Some(ps) => header_of(ps),
    }
}

/// What a document gives: its header and its page.
pub open spec fn document_result(s: Seq<char>) -> Result<(RamenView, Seq<char>), DocError> {
    if !has_header_block(s) {
        Err(DocError::MissingHeaderBlock)
    } else {
        match parsed_header(header_text(s)) {
            Err(e) => Err(e),
            Ok(h) => Ok((h, ramen_page(h, markdown_html(body_text(s))))),
        }
    }
}

/// A document result as plain values.
pub open spec fn document_view(r: Result<(Ramen, String), DocError>) -> Result<
    (RamenView, Seq<char>),
    DocError,
> {
    match r {
        Ok((d, page)) => Ok((d@, page@)),
        Err(e) => Err(e),
    }
}

/// Builds a header from its three fields.
pub fn header_from_fields(name: Option<String>, image: Option<String>, location: Option<String>) -> (r:
    Result<Ramen, DocError>)
    ensures
        header_result_view(r) == fields_header(opt_view(name), opt_view(image), opt_view(location)),
{
    match name {
        None => Err(DocError::InvalidHeader(HeaderField::Name)),
        Some(n) => match image {
            None => Err(DocError::InvalidHeader(HeaderField::Image)),
            Some(i) => match location {
                None => Err(DocError::InvalidHeader(HeaderField::Location)),
                Some(l) => Ok(Ramen { name: n, image: i, location: l }),
            },
        },
    }
}

/// The value of the last entry with key `key`.
fn lookup(pairs: &Vec<(String, String)>, key: &String) -> (r: Option<String>)
    ensures
        opt_view(r) == value_of(pairs_view(pairs@), key@),
{
    let mut found: Option<String> = None;
    let mut i: usize = 0;
    while i < pairs.len()
        invariant
            i <= pairs@.len(),
            opt_view(found) == value_of(pairs_view(pairs@.take(i as int)), key@),
        decreases pairs@.len() - i,
    {
        assert(pairs_view(pairs@.take(i + 1)).drop_last() =~= pairs_view(pairs@.take(i as int)));
        if pairs[i].0 == *key {
            found = Some(pairs[i].1.clone());
        }
        i = i + 1;
    }
    assert(pairs@.take(pairs@.len() as int) =~= pairs@);
    found
}

/// Reads a header from its YAML text.
pub fn parse_header(text: &str) -> (r: Result<Ramen, DocError>)
    ensures
        header_result_view(r) == parsed_header(text@),
{
    match read_yaml_strings(text) {
        Err(_) => Err(DocError::UnreadableHeader),
        Ok(pairs) => {
            let name = lookup(&pairs, &String::from_str("name"));
            let image = lookup(&pairs, &String::from_str("image"));
            let location = lookup(&pairs, &String::from_str("location"));
            header_from_fields(name, image, location)
        },
    }
}

/// Reads a document and renders its page: the header and the page's text.
pub fn render_document(source: &str) -> (r: Result<(Ramen, String), DocError>)
    ensures
        document_view(r) == document_result(source@),
{
    let (h, b) = match split_front_matter(source) {
        Err(e) => {
            return Err(e);
        },
        Ok(p) => p,
    };
    let doc = match parse_header(h.as_str()) {
        Err(e) => {
            return Err(e);
        },
        Ok(d) => d,
    };
    let content = markdown_to_html(b.as_str());
    let page = ramen(doc.duplicate(), content.as_str());
    Ok((doc, page))
}

/// A document whose header lacks a required field gives an error and no page.
pub proof fn law_header_complete(s: Seq<char>, ps: Seq<(Seq<char>, Seq<char>)>)
    requires
        has_header_block(s),
        yaml_string_map(header_text(s)) == Some(ps),
        value_of(ps, "name"@) is None || value_of(ps, "image"@) is None || value_of(
            ps,
            "location"@,
        ) is None,
    ensures
        document_result(s) is Err,
        document_result(s)->Err_0 is InvalidHeader,
{
}

} // verus!
