use gmailrs::reademail::remove_urls_from_text;
use gmailrs::url_remover::UrlRemover;

#[test]
fn test_url_removal() {
    // Test URL removal functionality
    let test_text = "Check out this link: https://example.com and this one too: www.test.org. More text here.";
    let cleaned = remove_urls_from_text(test_text);

    println!("Original: {}", test_text);
    println!("Cleaned: {}", cleaned);

    // Verify URLs are removed
    assert!(!cleaned.contains("https://example.com"));
    assert!(!cleaned.contains("www.test.org"));
    assert!(cleaned.contains("Check out this link:"));
    assert!(cleaned.contains("More text here."));
}

#[test]
fn test_remove_urls() {
    let remover = UrlRemover::new();

    let test_cases = vec![
        ("Check out https://example.com", "Check out "),
        (
            "Visit www.test.org and https://another.com/path",
            "Visit  and ",
        ),
        ("No URLs here", "No URLs here"),
        (
            "Mixed content: https://example.com and some text www.test.org more text",
            "Mixed content:  and some text  more text",
        ),
    ];

    for (input, expected) in test_cases {
        assert_eq!(remover.remove_urls(input), expected);
    }
}

#[test]
fn test_clean_text() {
    let remover = UrlRemover::new();

    let input = "Check out https://example.com\n\n   Visit www.test.org\n\n\nSome text here";
    let expected = "Check out Visit Some text here";

    assert_eq!(remover.clean_text(input), expected);
}

#[test]
fn scrub_keeps_the_words_around_a_link() {
    let cleaned = remove_urls_from_text("Check https://example.com now");
    assert!(cleaned.contains("Check"));
    assert!(cleaned.contains("now"));
    assert!(!cleaned.contains("https://example.com"));
    assert_eq!(cleaned, "Check now");
}

#[test]
fn scrub_is_idempotent_on_samples() {
    let samples = [
        "",
        "   ",
        "plain text",
        "Check https://example.com now",
        "wwwhttps://xx.yy.ab.cd",
        "a\t\tb\n\nc  www.x  ",
        "see(www.example.org)and more",
        "HTTP://UPPER.CASE/path?x=1 tail",
        "http:// alone and www. alone",
        "\u{a0}non\u{2003}breaking\u{3000}spaces ",
    ];
    for sample in samples {
        let once = remove_urls_from_text(sample);
        let twice = remove_urls_from_text(&once);
        assert_eq!(once, twice, "input {:?}", sample);
    }
}

#[test]
fn scrub_exact_results() {
    assert_eq!(remove_urls_from_text(""), "");
    assert_eq!(remove_urls_from_text(" \n\t "), "");
    assert_eq!(remove_urls_from_text("https://only.a.link"), "");
    assert_eq!(remove_urls_from_text("  a   b  "), "a b");
    assert_eq!(remove_urls_from_text("one\ntwo\r\nthree"), "one two three");
    // a link runs to the next white space and takes what is glued to its end
    assert_eq!(remove_urls_from_text("go to www.test.org. Then stop"), "go to Then stop");
    // what is glued to its front stays
    assert_eq!(remove_urls_from_text("see(https://a.b/c) now"), "see( now");
    assert_eq!(remove_urls_from_text("wwwhttps://xx.yy.ab.cd"), "www");
    // a scheme with nothing behind it is no link
    assert_eq!(remove_urls_from_text("http:// www. https://"), "http:// www. https://");
    assert_eq!(remove_urls_from_text("http://x"), "");
    // letters of the scheme in either case
    assert_eq!(remove_urls_from_text("A HTTPS://X.Y b Www.z c hTtP://q"), "A b c");
    // the long s counts as an s
    assert_eq!(remove_urls_from_text("a http\u{17f}://x b"), "a b");
    // other schemes and near misses stay
    assert_eq!(remove_urls_from_text("ftp://x.y https:/x ww.x.y"), "ftp://x.y https:/x ww.x.y");
    assert_eq!(remove_urls_from_text("a\u{a0}b\u{2003}c\u{3000}d"), "a b c d");
}

#[test]
fn remove_urls_keeps_white_space() {
    let remover = UrlRemover::new();
    assert_eq!(remover.remove_urls(""), "");
    assert_eq!(remover.remove_urls("a \n b"), "a \n b");
    assert_eq!(remover.remove_urls("x www.a.b\ty https://c\n"), "x \ty \n");
    assert_eq!(remover.remove_urls("pre-www.a.b post"), "pre- post");
    assert_eq!(remover.remove_urls("www."), "www.");
    assert_eq!(remover.remove_urls("www.\u{2028}x"), "www.\u{2028}x");
}

fn reference_scrub(text: &str) -> String {
    let links = regex::Regex::new(r"(?i)(?:https?://|www\.)\S+").unwrap();
    let spaces = regex::Regex::new(r"\s+").unwrap();
    let without = links.replace_all(text, "").to_string();
    spaces.replace_all(&without, " ").trim().to_string()
}

#[test]
fn scrub_agrees_with_a_regular_expression() {
    let samples = [
        "Check https://example.com now",
        "Check out this link: https://example.com and this one too: www.test.org. More text here.",
        "Check out https://example.com\n\n   Visit www.test.org\n\n\nSome text here",
        "wwwhttps://xx.yy.ab.cd",
        "x http://a http://b\thttps://c www.d y",
        "HTTP://A.B www.C.D WWW.e.f",
        "http:// www. https:// httpx://q wwww.x www..",
        "<a href=\"https://example.com\">link</a> text",
        "a\u{a0}b\u{2003}www.c.d\u{3000}e\u{85}f",
        "\u{feff}bom https://x\u{200b}y z",
        "long http\u{17f}://x s HTTP\u{17f}://Y.Z and http\u{17f}:// alone",
        "kelvin \u{212a}www.x www\u{212a}.x",
        "",
        " ",
    ];
    for sample in samples {
        assert_eq!(remove_urls_from_text(sample), reference_scrub(sample), "input {:?}", sample);
        let remover = UrlRemover::new();
        let links = regex::Regex::new(r"(?i)(?:https?://|www\.)\S+").unwrap();
        assert_eq!(
            remover.remove_urls(sample),
            links.replace_all(sample, "").to_string(),
            "input {:?}",
            sample
        );
    }
}
