use gmailrs::reademail::apply_conversion;
use gmailrs::reademail::convert_html_to_text;
use gmailrs::reademail::looks_marked_up;
use gmailrs::reademail::Conversion;
use gmailrs::reademail::RENDER_WIDTH;
use gmailrs::EmailResponse;
use gmailrs::EmailSummary;

fn render(html: &str) -> Conversion {
    match html2text::from_read(html.as_bytes(), RENDER_WIDTH) {
        Ok(text) => Conversion::Completed(text),
        Err(_) => Conversion::Failed,
    }
}

fn summary(body: &str) -> EmailSummary {
    EmailSummary {
        id: "test_id".to_string(),
        from: "test@example.com".to_string(),
        subject: "Test Subject".to_string(),
        snippet: "Test snippet".to_string(),
        body_raw: body.to_string(),
    }
}

#[test]
fn test_email_processing_with_urls() {
    // Test email processing that includes URL removal
    let mut email = EmailSummary {
        id: "test_id".to_string(),
        from: "test@example.com".to_string(),
        subject: "Test Subject".to_string(),
        snippet: "Test snippet".to_string(),
        body_raw: "Check this out: https://example.com\n\nVisit www.test.org for more info.\n\nThanks!".to_string(),
    };

    // Process the email (this should remove URLs)
    convert_html_to_text(&mut email, None);

    // Verify URLs were removed
    assert!(!email.body_raw.contains("https://example.com"));
    assert!(!email.body_raw.contains("www.test.org"));
    assert!(email.body_raw.contains("Check this out:"));
    assert!(email.body_raw.contains("Thanks!"));

    println!("Processed email body: {}", email.body_raw);
    assert_eq!(email.body_raw, "Check this out: Visit for more info. Thanks!");
    assert_eq!(email.id, "test_id");
    assert_eq!(email.from, "test@example.com");
    assert_eq!(email.subject, "Test Subject");
    assert_eq!(email.snippet, "Test snippet");
}

#[test]
fn marked_up_means_a_leading_angle_bracket() {
    assert!(looks_marked_up("<p>x</p>"));
    assert!(looks_marked_up("  \n\t<html>"));
    assert!(looks_marked_up("\u{a0}\u{3000}<"));
    assert!(!looks_marked_up(""));
    assert!(!looks_marked_up("   "));
    assert!(!looks_marked_up("x <p>"));
    assert!(!looks_marked_up("&lt;p&gt;"));
    assert!(!looks_marked_up("\u{200b}<p>"));
}

#[test]
fn rendering_wraps_at_a_hundred_columns() {
    let word = "abcdefghi ";
    let html = format!("<p>{}</p>", word.repeat(12));
    match render(&html) {
        Conversion::Completed(text) => {
            let lines: Vec<&str> = text.lines().collect();
            assert_eq!(lines.len(), 2);
            assert_eq!(lines[0], word.repeat(10).trim_end());
            assert_eq!(lines[1], word.repeat(2).trim_end());
        }
        _ => panic!("the renderer failed"),
    }
}

#[test]
fn a_completed_conversion_replaces_the_body() {
    let body = String::from("<p>raw</p>");
    let out = apply_conversion(body, Conversion::Completed(String::from("raw\n")));
    assert_eq!(out, "raw\n");
}

#[test]
fn a_missed_deadline_keeps_the_body() {
    let body = String::from("  <p>slow https://example.com</p>");
    let out = apply_conversion(body.clone(), Conversion::TimedOut);
    assert_eq!(out, body);
}

#[test]
fn a_failed_conversion_keeps_the_body() {
    let body = String::from("<p>broken</p>");
    let out = apply_conversion(body.clone(), Conversion::Failed);
    assert_eq!(out, body);
}

#[test]
fn html_body_is_rendered_then_scrubbed() {
    let body = "  <div><p>Hello   there</p><p>Visit www.test.org today</p></div>";
    let mut email = summary(body);
    convert_html_to_text(&mut email, Some(render(body)));
    assert_eq!(email.body_raw, "Hello there Visit today");
    assert_eq!(email.id, "test_id");
    assert_eq!(email.subject, "Test Subject");
}

#[test]
fn response_count_is_the_number_of_emails() {
    let empty = EmailResponse::empty();
    assert_eq!(empty.count(), 0);
    assert_eq!(empty.emails().len(), 0);
    let response = EmailResponse::new(vec![summary("a"), summary("b"), summary("c")]);
    assert_eq!(response.count(), 3);
    assert_eq!(response.count(), response.emails().len());
    assert_eq!(response.emails()[1].body_raw, "b");
    let emails = response.into_emails();
    assert_eq!(emails.len(), 3);
    assert_eq!(emails[2].body_raw, "c");
}

#[test]
fn markup_that_fails_to_render_is_kept() {
    let html = format!("{}deep{}", "<blockquote>".repeat(80), "</blockquote>".repeat(80));
    assert!(matches!(render(&html), Conversion::Failed));
    let mut email = summary(&html);
    convert_html_to_text(&mut email, Some(render(&html)));
    assert_eq!(email.body_raw, html);
}

#[test]
fn a_plain_body_is_never_replaced() {
    let mut email = summary("plain  text https://example.com");
    convert_html_to_text(&mut email, Some(Conversion::Completed(String::from("other"))));
    assert_eq!(email.body_raw, "plain text");
}

#[test]
fn a_late_or_missing_rendering_leaves_the_markup() {
    let mut email = summary(" <p>slow</p>");
    convert_html_to_text(&mut email, Some(Conversion::TimedOut));
    assert_eq!(email.body_raw, "<p>slow</p>");
    let mut email = summary("<p>never  tried</p>");
    convert_html_to_text(&mut email, None);
    assert_eq!(email.body_raw, "<p>never tried</p>");
}

#[test]
fn a_rendered_text_takes_the_place_of_markup() {
    let mut email = summary("\n<p>x</p>");
    convert_html_to_text(&mut email, Some(Conversion::Completed(String::from("x www.a.b\n"))));
    assert_eq!(email.body_raw, "x");
}
