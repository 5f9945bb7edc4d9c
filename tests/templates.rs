use ralog::templates::{body, head, home, html, navbar, ramen, Ramen};

fn sample(name: &str, image: &str, location: &str) -> Ramen {
    Ramen {
        name: name.to_string(),
        image: image.to_string(),
        location: location.to_string(),
    }
}

#[test]
fn generate_html() {
    assert_eq!(
        html(
            "ja-jp",
            &head(
                "ラーログ",
                vec![(
                    "stylesheet",
                    "https://cdn.jsdelivr.net/npm/bulma@0.9.1/css/bulma.min.css"
                )]
            ),
            "<body>body</body>"
        )
        .split_whitespace()
        .collect::<String>(),
        r#"
<!DOCTYPE html>
<html lang="ja-jp">
    <head>
        <meta charset="utf-8">
        <meta name="viewport" content="width=device-width, initial-scale=1">
        <title>ラーログ</title>
        <link rel="stylesheet" href="./style.css">
        <link rel="stylesheet" href="https://cdn.jsdelivr.net/npm/bulma@0.9.1/css/bulma.min.css">
        <link rel="stylesheet" href="https://cdn.jsdelivr.net/npm/bulma@0.9.1/css/bulma.min.css">
    </head>
    <body>
        body
    </body>
</html>
            "#
        .split_whitespace()
        .collect::<String>(),
    )
}

#[test]
fn html_shell_exact() {
    assert_eq!(
        html("ja", "<head></head>", "<body></body>"),
        "<!DOCTYPE html>\n<html lang=\"ja\">\n<head></head>\n<body></body>\n</html>"
    );
}

#[test]
fn head_has_title_fixed_styles_and_links() {
    let h = head("T", vec![("icon", "a.png"), ("preload", "b.css")]);
    assert!(h.starts_with("<head>\n"));
    assert!(h.contains("<title>T</title>"));
    assert!(h.contains("<link rel=\"stylesheet\" href=\"./style.css\">"));
    assert!(h.contains(
        "<link rel=\"stylesheet\" href=\"https://cdn.jsdelivr.net/npm/bulma@0.9.1/css/bulma.min.css\">"
    ));
    assert!(h.ends_with(
        "    <link rel=\"icon\" href=\"a.png\">    \n    <link rel=\"preload\" href=\"b.css\">\n</head>"
    ));
}

#[test]
fn head_without_links() {
    let h = head("T", vec![]);
    assert!(h.ends_with("bulma.min.css\">\n\n</head>"));
}

#[test]
fn body_holds_navbar_then_content() {
    let b = body("CONTENT");
    let nav = navbar();
    assert!(nav.contains("href=\"./index.html\""));
    assert!(nav.contains("alt=\"ラーログ\""));
    let at_nav = b.find(&nav).unwrap();
    let at_content = b.find("CONTENT").unwrap();
    assert!(at_nav < at_content);
    assert!(b.starts_with("<body style=\"overflow-x: hidden\">\n"));
    assert!(b.ends_with("</body>"));
}

#[test]
fn ramen_page_fields_in_order() {
    let page = ramen(sample("Shoyu", "shoyu.jpg", "Tokyo"), "<p>good</p>");
    assert!(page.contains("<title>Shoyu | ラーログ</title>"));
    assert!(page.contains("<html lang=\"ja\">"));
    let a = page.find("<h1>Shoyu</h1>").unwrap();
    let b = page.find("<img class=\"ramen-thumbnail\" src=\"shoyu.jpg\">").unwrap();
    let c = page.find("<div>Tokyo</div>").unwrap();
    let d = page.find("<p>good</p>").unwrap();
    assert!(a < b && b < c && c < d);
}

#[test]
fn ramen_page_is_deterministic() {
    let one = ramen(sample("A", "a.png", "X"), "<p>x</p>");
    let two = ramen(sample("A", "a.png", "X"), "<p>x</p>");
    assert_eq!(one, two);
}

#[test]
fn home_groups_by_location_in_first_order() {
    let page = home(vec![
        ("a.html".to_string(), sample("A", "a.png", "Tokyo")),
        ("b.html".to_string(), sample("B", "b.png", "Osaka")),
        ("c.html".to_string(), sample("C", "c.png", "Tokyo")),
    ]);
    assert_eq!(page.matches("<h2>").count(), 2);
    assert_eq!(page.matches("<a href=\"./").count(), 3);
    let tokyo = page.find("<h2>Tokyo</h2>").unwrap();
    let osaka = page.find("<h2>Osaka</h2>").unwrap();
    let a = page.find("<a href=\"./a.html\">").unwrap();
    let b = page.find("<a href=\"./b.html\">").unwrap();
    let c = page.find("<a href=\"./c.html\">").unwrap();
    assert!(tokyo < a && a < c && c < osaka && osaka < b);
    assert!(page.contains("<title>ラーログ</title>"));
}

#[test]
fn home_section_exact() {
    let page = home(vec![("a.html".to_string(), sample("A", "a.png", "X"))]);
    let section = "<h2>X</h2>\n                <div class=\"ramens-container\">\n                <div class=\"ramens\"><a href=\"./a.html\">\n                                <img class=\"ramen-thumbnail\" src=\"a.png\">\n                                <div>\n                                A\n                                </div>\n                            </a></div>\n                </div>";
    assert_eq!(page, html("ja", &head("ラーログ", vec![]), &body(section)));
}

#[test]
fn home_with_no_entries_has_empty_listing() {
    let page = home(vec![]);
    assert_eq!(page, html("ja", &head("ラーログ", vec![]), &body("")));
    assert!(!page.contains("<h2>"));
}
