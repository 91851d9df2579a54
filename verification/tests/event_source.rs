use robrix::event_source::{format_event_source_html, CopyButton, EventSourceModal};

#[test]
fn event_source_html_highlights_keys_strings_numbers_and_literals() {
    let json = "{\n  \"body\": \"拿捏中\",\n  \"age\": 3749,\n  \"ok\": true,\n  \"missing\": null\n}";
    let html = format_event_source_html(json);

    assert!(html.contains("<font color=\"#22863A\">\"body\"</font>"));
    assert!(html.contains("<font color=\"#032F62\">\"拿捏中\"</font>"));
    assert!(html.contains("<font color=\"#005CC5\">3749</font>"));
    assert!(html.contains("<font color=\"#D73A49\">true</font>"));
    assert!(html.contains("<font color=\"#D73A49\">null</font>"));
    assert!(html.contains("<br>"));
    assert!(html.contains("<font color=\"#F7F9FC\">"));
    assert!(html.contains('\u{2800}'));
}

#[test]
fn event_source_html_escapes_angle_brackets_inside_strings() {
    let json = "{\n  \"formatted_body\": \"<b>拿捏中</b><br>ok\"\n}";
    let html = format_event_source_html(json);

    assert!(html.contains("&lt;b&gt;拿捏中&lt;/b&gt;&lt;br&gt;ok"));
    assert!(!html.contains("<b>拿捏中</b>"));
}

#[test]
fn event_source_html_of_empty_text_is_empty() {
    assert_eq!(format_event_source_html(""), "");
}

#[test]
fn event_source_html_exact_output_of_a_small_object() {
    let html = format_event_source_html("{\"a\": -1.5e+3}");
    assert_eq!(
        html,
        "<font color=\"#6A737D\">{</font><font color=\"#22863A\">\"a\"</font><font color=\"#6A737D\">:</font>&nbsp;<font color=\"#005CC5\">-1.5e+3</font><font color=\"#6A737D\">}</font>"
    );
}

#[test]
fn event_source_html_indents_with_two_blanks_per_space_and_eight_per_tab() {
    let html = format_event_source_html("[\n 1,\n\t2]");
    let blank = '\u{2800}';
    let two = format!("<font color=\"#F7F9FC\">{}</font>", blank.to_string().repeat(2));
    let eight = format!("<font color=\"#F7F9FC\">{}</font>", blank.to_string().repeat(8));
    assert_eq!(
        html,
        format!(
            "<font color=\"#6A737D\">[</font><br>{two}<font color=\"#005CC5\">1</font><font color=\"#6A737D\">,</font><br>{eight}<font color=\"#005CC5\">2</font><font color=\"#6A737D\">]</font>"
        )
    );
}

#[test]
fn event_source_html_tab_inside_a_line_is_four_spaces() {
    assert_eq!(format_event_source_html("1\t2"), "<font color=\"#005CC5\">1</font>&nbsp;&nbsp;&nbsp;&nbsp;<font color=\"#005CC5\">2</font>");
}

#[test]
fn event_source_html_words_that_are_not_literals_are_plain_text() {
    assert_eq!(format_event_source_html("tru"), "tru");
    assert_eq!(format_event_source_html("nul&"), "nul&amp;");
    assert_eq!(format_event_source_html("false"), "<font color=\"#D73A49\">false</font>");
}

#[test]
fn event_source_html_string_with_escaped_quote_and_no_end() {
    // The escaped quote does not end the string; the string runs to the end.
    let html = format_event_source_html("\"a\\\"b");
    assert_eq!(html, "<font color=\"#032F62\">\"a\\\"b</font>");
}

#[test]
fn event_source_html_key_detection_skips_whitespace_before_colon() {
    let html = format_event_source_html("\"k\"  :1");
    assert!(html.starts_with("<font color=\"#22863A\">\"k\"</font>"));
}

#[test]
fn copy_payload_follows_what_the_modal_holds() {
    let mut modal = EventSourceModal::new();
    assert!(modal.copy_payload(CopyButton::RoomId).is_none());
    modal.show("!r:x.org".to_string(), None, Some("{}".to_string()));
    assert_eq!(modal.copy_payload(CopyButton::RoomId), Some(("!r:x.org".to_string(), "Copied Room ID to clipboard.")));
    assert!(modal.copy_payload(CopyButton::EventId).is_none());
    assert_eq!(modal.copy_payload(CopyButton::Source), Some(("{}".to_string(), "Copied event source to clipboard.")));
}
