use ralog::document::DocError;
use ralog::site::{build_site, is_markdown_name, output_name, plan_entry, EntryAction};

fn doc(file: &str, name: &str, location: &str) -> (String, String) {
    (
        file.to_string(),
        format!("---\nname: {}\nimage: {}.png\nlocation: {}\n---\n# {}\n", name, name, location, name),
    )
}

#[test]
fn markdown_names_map_to_html() {
    assert_eq!(output_name("shoyu.md"), "shoyu.html");
    assert_eq!(output_name("a.b.md"), "a.b.html");
    assert_eq!(output_name("logo.png"), "logo.png");
    assert_eq!(output_name(".md"), ".md");
    assert!(is_markdown_name("x.md"));
    assert!(!is_markdown_name("x.mdx"));
    assert!(!is_markdown_name("md"));
}

#[test]
fn plan_entry_actions() {
    assert!(matches!(plan_entry("sub", true), EntryAction::Skip));
    assert!(matches!(plan_entry("x.md", true), EntryAction::Skip));
    match plan_entry("x.md", false) {
        EntryAction::Render(n) => assert_eq!(n, "x.html"),
        _ => panic!("expected a page"),
    }
    match plan_entry("logo.png", false) {
        EntryAction::Copy(n) => assert_eq!(n, "logo.png"),
        _ => panic!("expected a copy"),
    }
}

#[test]
fn build_site_pages_and_index() {
    let docs = vec![
        doc("a.md", "A", "Tokyo"),
        doc("b.md", "B", "Osaka"),
        doc("c.md", "C", "Tokyo"),
    ];
    let site = build_site(&docs).unwrap();
    let names: Vec<&str> = site.pages.iter().map(|p| p.0.as_str()).collect();
    assert_eq!(names, vec!["a.html", "b.html", "c.html"]);
    assert!(site.pages[1].1.contains("<h1>B</h1>"));
    assert_eq!(site.index.matches("<h2>").count(), 2);
    assert_eq!(site.index.matches("<a href=\"./").count(), 3);
    assert!(site.index.contains("<a href=\"./c.html\">"));
}

#[test]
fn build_site_twice_is_identical() {
    let docs = vec![doc("a.md", "A", "X"), doc("b.md", "B", "Y")];
    let one = build_site(&docs).unwrap();
    let two = build_site(&docs).unwrap();
    assert_eq!(one.index, two.index);
    assert_eq!(one.pages, two.pages);
}

#[test]
fn build_site_empty() {
    let site = build_site(&vec![]).unwrap();
    assert!(site.pages.is_empty());
    assert!(!site.index.contains("<h2>"));
}

#[test]
fn build_site_stops_on_bad_document() {
    let docs = vec![doc("a.md", "A", "X"), ("b.md".to_string(), "no header".to_string())];
    assert_eq!(build_site(&docs).err().unwrap(), DocError::MissingHeaderBlock);
}
