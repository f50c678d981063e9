use waseda_moodle_checker::canonical::{CanonicalDocument, Canonicalizer};
use waseda_moodle_checker::error::ErrorKind;

fn page(content: &str) -> String {
    format!(
        "<!DOCTYPE html><html><head><title>t</title></head><body><nav>menu</nav>\
         <div id=\"page-content\">{}</div><footer>f</footer></body></html>",
        content
    )
}

fn canonical_markup(raw: &str, token: &str) -> String {
    let canonicalizer = Canonicalizer::new().unwrap();
    canonicalizer.canonicalize(raw, token).ok().unwrap().markup().to_string()
}

fn wrapped(body: &str) -> String {
    format!("<html><head></head><body>{}</body></html>", body)
}

fn anchored(content: &str) -> String {
    wrapped(&format!("<div id=\"page-content\">{}</div>", content))
}

#[test]
fn the_anchor_is_kept_and_nothing_around_it() {
    assert_eq!(canonical_markup(&page("<p>Hello</p>"), "Qx7Zt"), anchored("<p>Hello</p>"));
}

#[test]
fn white_space_inside_the_anchor_is_kept() {
    assert_eq!(
        canonical_markup(&page("\n   <p>Hello</p>  \n"), "Qx7Zt"),
        anchored("\n   <p>Hello</p>  \n")
    );
}

#[test]
fn the_attributes_of_the_anchor_are_kept() {
    let raw = "<body><section class=\"wide\" id=\"page-content\" data-n=\"1\">x</section></body>";
    assert_eq!(
        canonical_markup(raw, "Qx7Zt"),
        wrapped("<section class=\"wide\" data-n=\"1\" id=\"page-content\">x</section>")
    );
}

#[test]
fn a_page_without_the_anchor_is_an_invalid_response() {
    let canonicalizer = Canonicalizer::new().unwrap();
    let found = canonicalizer.canonicalize("<html><body><p>login</p></body></html>", "Qx7Zt");
    let error = found.err().unwrap();
    assert_eq!(error.kind, ErrorKind::InvalidResponse);
    assert_eq!(error.cause.as_deref(), Some("no element matched the content selector"));
    assert_eq!(
        error.description(),
        "received invalid response: no element matched the content selector"
    );
    let found = canonicalizer.canonicalize("", "");
    assert_eq!(found.err().unwrap().kind, ErrorKind::InvalidResponse);
}

#[test]
fn malformed_markup_with_the_anchor_still_parses() {
    let raw = "<body><div id=\"page-content\"><p>one<p>two</div>";
    assert_eq!(canonical_markup(raw, "Qx7Zt"), anchored("<p>one</p><p>two</p>"));
}

#[test]
fn the_first_anchor_counts() {
    let raw = "<div id=\"page-content\">first</div><div id=\"page-content\">second</div>";
    assert_eq!(canonical_markup(raw, "Qx7Zt"), anchored("first"));
}

#[test]
fn the_session_token_is_taken_out() {
    let raw = page("<a href=\"/mod/view.php?id=7&amp;sesskey=Zk3QwT\">seven</a>");
    assert_eq!(
        canonical_markup(&raw, "Zk3QwT"),
        anchored("<a href=\"/mod/view.php?id=7&amp;sesskey=\">seven</a>")
    );
}

#[test]
fn pages_that_differ_only_in_the_session_token_are_equal() {
    let canonicalizer = Canonicalizer::new().unwrap();
    let content = |token: &str| {
        page(&format!(
            "<a href=\"/a?sesskey={}\">a</a><input name=\"sesskey\" value=\"{}\">",
            token, token
        ))
    };
    let first = canonicalizer.canonicalize(&content("Zk3QwT"), "Zk3QwT").ok().unwrap();
    let second = canonicalizer.canonicalize(&content("m9XXp0"), "m9XXp0").ok().unwrap();
    assert!(first.same_as(&second));
    assert_eq!(first.markup(), second.markup());
}

#[test]
fn pages_that_differ_only_in_a_marker_suffix_are_equal() {
    let canonicalizer = Canonicalizer::new().unwrap();
    let content = |suffix: &str| {
        page(&format!(
            "<form method=\"post\" id=\"single_button{}\"><button>go</button></form>",
            suffix
        ))
    };
    let first = canonicalizer.canonicalize(&content("5f3a9c1e2"), "Qx7Zt").ok().unwrap();
    let second = canonicalizer.canonicalize(&content("60b7d4aa1"), "Qx7Zt").ok().unwrap();
    assert!(first.same_as(&second));
    assert_eq!(
        first.markup(),
        anchored("<form id=\"single_button\" method=\"post\"><button>go</button></form>")
    );
}

#[test]
fn noise_is_removed_with_everything_below_it() {
    let raw = page(
        "<div class=\"snap-media-meta\"><time datetime=\"1\">10:00 <b>today</b></time></div>\
         <p>Forum <span class=\"unread\">3</span></p>\
         <span class=\"actions\"><input type=\"checkbox\"></span>\
         <time>kept: not below the meta block</time>\
         <span class=\"read\">kept</span>",
    );
    assert_eq!(
        canonical_markup(&raw, "Qx7Zt"),
        anchored(
            "<div class=\"snap-media-meta\"></div><p>Forum </p>\
             <time>kept: not below the meta block</time><span class=\"read\">kept</span>"
        )
    );
}

#[test]
fn pages_that_differ_only_inside_noise_are_equal() {
    let canonicalizer = Canonicalizer::new().unwrap();
    let content = |time: &str, unread: &str| {
        page(&format!(
            "<div class=\"snap-media-meta\"><time>{}</time></div>\
             <a>Forum<span class=\"unread\">{}</span></a>",
            time, unread
        ))
    };
    let first = canonicalizer.canonicalize(&content("10:00", "3"), "Qx7Zt").ok().unwrap();
    let second =
        canonicalizer.canonicalize(&content("11:30", "<b>12</b>"), "Qx7Zt").ok().unwrap();
    assert!(first.same_as(&second));
}

#[test]
fn pages_that_differ_outside_noise_are_not_equal() {
    let canonicalizer = Canonicalizer::new().unwrap();
    let first = canonicalizer.canonicalize(&page("<p>Week 1</p>"), "Qx7Zt").ok().unwrap();
    let text = canonicalizer.canonicalize(&page("<p>Week 2</p>"), "Qx7Zt").ok().unwrap();
    let element = canonicalizer.canonicalize(&page("<p>Week 1</p><hr>"), "Qx7Zt").ok().unwrap();
    let attribute =
        canonicalizer.canonicalize(&page("<p class=\"x\">Week 1</p>"), "Qx7Zt").ok().unwrap();
    let space = canonicalizer.canonicalize(&page("<p>Week 1</p> "), "Qx7Zt").ok().unwrap();
    assert!(!first.same_as(&text));
    assert!(!first.same_as(&element));
    assert!(!first.same_as(&attribute));
    assert!(!first.same_as(&space));
    assert!(first.same_as(&first));
}

#[test]
fn a_noise_list_of_ones_own_is_used() {
    let noise = vec![".clock".to_string()];
    let canonicalizer = Canonicalizer::with_selectors("main", &noise).unwrap();
    let raw = "<body><div id=\"page-content\">no</div>\
               <main><i class=\"clock\">9</i><span class=\"unread\">1</span></main></body>";
    let doc = canonicalizer.canonicalize(raw, "").ok().unwrap();
    assert_eq!(doc.markup(), wrapped("<main><span class=\"unread\">1</span></main>"));
}

#[test]
fn an_empty_noise_list_removes_nothing() {
    let canonicalizer = Canonicalizer::with_selectors("#page-content", &Vec::new()).unwrap();
    let doc =
        canonicalizer.canonicalize(&page("<span class=\"unread\">1</span>"), "").ok().unwrap();
    assert_eq!(doc.markup(), anchored("<span class=\"unread\">1</span>"));
}

#[test]
fn a_selector_that_does_not_parse_gives_no_canonicalizer() {
    assert!(Canonicalizer::with_selectors("div[", &Vec::new()).is_none());
    assert!(Canonicalizer::with_selectors("div", &vec!["span".to_string(), "::".to_string()])
        .is_none());
    assert!(Canonicalizer::with_selectors("div", &vec!["span".to_string()]).is_some());
    assert!(Canonicalizer::new().is_some());
}

#[test]
fn a_document_is_loaded_from_its_markup() {
    let canonicalizer = Canonicalizer::new().unwrap();
    let doc = canonicalizer
        .canonicalize(&page("<p>Hello</p><ul><li>a</li></ul>"), "Qx7Zt")
        .ok()
        .unwrap();
    let loaded = CanonicalDocument::from_markup(doc.markup());
    assert!(loaded.same_as(&doc));
    assert_eq!(loaded.markup(), doc.markup());
    let other = CanonicalDocument::from_markup("<p>Bye</p>");
    assert_eq!(other.markup(), wrapped("<p>Bye</p>"));
    assert!(!other.same_as(&doc));
}

#[test]
fn canonicalizing_a_canonical_document_gives_it_again() {
    let canonicalizer = Canonicalizer::new().unwrap();
    let pages = [
        page("Hello"),
        page("\n  <h2>Week 1</h2>\n  <ul><li>Slides</li><li>Notes</li></ul>\n"),
        page(
            "<form id=\"single_button5f3a\"><input name=\"sesskey\" value=\"Zk3QwT\"></form>\
             <div class=\"snap-media-meta\"><time>10:00</time></div>\
             <a href=\"/forum\">Forum<span class=\"unread\">3</span></a>\
             <span class=\"actions\"><input type=\"checkbox\"></span>",
        ),
        page("<p>one<p>two<table><tr><td>x</table>"),
        page("<div id=\"page-content\"><p>inner</p></div>"),
        "<p>before</p><main id=\"page-content\" class=\"course\">é ü 日本語 &amp; &lt;</main>"
            .to_string(),
    ];
    for raw in pages {
        let first = canonicalizer.canonicalize(&raw, "Zk3QwT").ok().unwrap();
        let second = canonicalizer.canonicalize(first.markup(), "Zk3QwT").ok().unwrap();
        assert!(second.same_as(&first));
        assert_eq!(second.markup(), first.markup());
    }
}

#[test]
fn a_canonical_document_parses_back_from_its_markup() {
    let canonicalizer = Canonicalizer::new().unwrap();
    let raw = page("<p>one<p>two<b>bold<i>both</b>italic</i><span class=\"unread\">1</span>");
    let doc = canonicalizer.canonicalize(&raw, "Qx7Zt").ok().unwrap();
    let again = CanonicalDocument::from_markup(doc.markup());
    assert!(again.same_as(&doc));
    assert_eq!(again.markup(), doc.markup());
}

#[test]
fn the_stages_of_the_canonical_form() {
    let canonicalizer = Canonicalizer::new().unwrap();
    let raw = "<a href=\"?sesskey=Zk3QwT\"></a><div id=\"page-content\"> \
               <form id=\"single_button99\"><span class=\"actions\">x</span></form> </div>";
    let text = canonicalizer.stable_text_of(raw, "Zk3QwT");
    assert_eq!(
        text,
        "<a href=\"?sesskey=\"></a><div id=\"page-content\"> \
         <form id=\"single_button\"><span class=\"actions\">x</span></form> </div>"
    );
    let content = canonicalizer.content_of(&text).unwrap();
    assert_eq!(
        content,
        "<div id=\"page-content\"> \
         <form id=\"single_button\"><span class=\"actions\">x</span></form> </div>"
    );
    let markup = canonicalizer.clear_noise(&content).unwrap();
    assert_eq!(markup, anchored(" <form id=\"single_button\"></form> "));
    let doc = canonicalizer.canonicalize(raw, "Zk3QwT").ok().unwrap();
    assert_eq!(doc.markup(), markup);
    assert!(canonicalizer.content_of("<p>no anchor</p>").is_none());
}

#[test]
fn an_element_matched_twice_is_removed_once() {
    let noise = vec!["span".to_string(), ".unread".to_string(), "b".to_string()];
    let canonicalizer = Canonicalizer::with_selectors("#page-content", &noise).unwrap();
    let markup = canonicalizer
        .clear_noise("<p>a<span class=\"unread\">1<b>2</b></span>c<b>d</b></p>")
        .unwrap();
    assert_eq!(markup, wrapped("<p>ac</p>"));
}

#[test]
fn a_noise_list_that_matches_the_root_leaves_nothing_to_write_out() {
    let noise = vec!["html".to_string()];
    let canonicalizer = Canonicalizer::with_selectors("#page-content", &noise).unwrap();
    assert!(canonicalizer.clear_noise("<p>a</p>").is_none());
    let found = canonicalizer.canonicalize("<div id=\"page-content\">a</div>", "");
    let error = found.err().unwrap();
    assert_eq!(error.kind, ErrorKind::InvalidResponse);
    assert_eq!(error.cause.as_deref(), Some("no root element was left to write out"));
}

#[test]
fn a_long_page_is_handled() {
    let canonicalizer = Canonicalizer::new().unwrap();
    let mut content = String::new();
    let mut expected = String::new();
    for week in 0..2000 {
        content.push_str(&format!(
            "<section id=\"w{}\"><a href=\"/view?id={}&amp;sesskey=Zk3QwT\">Week {}</a>\
             <span class=\"unread\">{}</span></section>",
            week, week, week, week
        ));
        expected.push_str(&format!(
            "<section id=\"w{}\"><a href=\"/view?id={}&amp;sesskey=\">Week {}</a></section>",
            week, week, week
        ));
    }
    let doc = canonicalizer.canonicalize(&page(&content), "Zk3QwT").ok().unwrap();
    assert_eq!(doc.markup(), anchored(&expected));
}

#[test]
fn every_markup_parses_into_a_document() {
    assert_eq!(CanonicalDocument::from_markup("").markup(), wrapped(""));
    assert_eq!(CanonicalDocument::from_markup("plain").markup(), wrapped("plain"));
    assert_eq!(
        CanonicalDocument::from_markup("<!-- before the root --><p>x</p>").markup(),
        wrapped("<p>x</p>")
    );
    assert_eq!(
        CanonicalDocument::from_markup("</div><b><p>x</b>y</p>").markup(),
        wrapped("<b></b><p><b>x</b>y</p>")
    );
}

#[test]
fn a_document_tells_whether_its_markup_parses_back_to_it() {
    assert!(CanonicalDocument::from_markup("<p>x</p>").is_settled());
    assert!(CanonicalDocument::from_markup("").is_settled());
    assert!(!CanonicalDocument::from_markup("<!-- before the root --><p>x</p>").is_settled());
    assert!(!CanonicalDocument::from_markup("<b><p>x</b>y</p>").is_settled());
    assert!(!CanonicalDocument::from_markup("<noscript><img src=\"x\"></noscript>").is_settled());
}

#[test]
fn what_parsing_repairs_settles_in_the_canonical_form() {
    let canonicalizer = Canonicalizer::new().unwrap();
    let contents = [
        "<!-- c --><p>x</p>",
        "<b><p>x</b>y</p>",
        "<pre>\n\nfoo</pre>",
        "<textarea>\n\nfoo</textarea>",
        "<table><p>x</p><tr><td>y</td></tr></table>",
        "<a>1<a>2</a></a>",
        "<script>if (a < b) { x = 1; }</script><style>a > b { }</style>",
    ];
    for content in contents {
        let doc = canonicalizer.canonicalize(&page(content), "Qx7Zt").ok().unwrap();
        assert!(doc.is_settled());
        let loaded = CanonicalDocument::from_markup(doc.markup());
        assert!(loaded.same_as(&doc));
        assert_eq!(loaded.markup(), doc.markup());
    }
}

#[test]
fn a_page_that_does_not_settle_still_has_a_canonical_form() {
    let canonicalizer = Canonicalizer::new().unwrap();
    let raw = page("<p>Video</p><noscript><img src=\"x\"></noscript>");
    let doc = canonicalizer.canonicalize(&raw, "Qx7Zt").ok().unwrap();
    assert!(!doc.is_settled());
    assert_eq!(
        doc.markup(),
        anchored("<p>Video</p><noscript>&amp;amp;lt;img src=\"x\"&amp;amp;gt;</noscript>")
    );
    let again = canonicalizer.canonicalize(&raw, "Qx7Zt").ok().unwrap();
    assert!(again.same_as(&doc));
    let loaded = CanonicalDocument::from_markup(doc.markup());
    assert!(!loaded.same_as(&doc));
    let plaintext = canonicalizer.canonicalize(&page("<plaintext>abc"), "Qx7Zt");
    assert!(plaintext.is_ok());
}
