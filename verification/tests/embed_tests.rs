use matrix_osu_bot::embed::EmbedBuilder;
use matrix_osu_bot::html::escape_html;

#[test]
fn escape_replaces_markup_characters() {
    assert_eq!(escape_html("<b>\"Tom & Jerry\"</b>"), "&lt;b&gt;&quot;Tom &amp; Jerry&quot;&lt;/b&gt;");
    assert_eq!(escape_html("it's fine"), "it's fine");
    assert_eq!(escape_html(""), "");
}

#[test]
fn escaped_text_has_no_markup() {
    let e = escape_html("<script>alert(\"x\")</script>");
    assert!(!e.contains('<') && !e.contains('>') && !e.contains('"'));
}

fn sample() -> EmbedBuilder {
    EmbedBuilder::with_title("Title".to_string())
        .field("Accuracy".to_string(), "98.76%".to_string())
        .field("Play<count>".to_string(), "1 & 2".to_string())
}

#[test]
fn plain_text_rendering() {
    assert_eq!(sample().to_plain(), "Title \u{2014} Accuracy: 98.76% | Play<count>: 1 & 2");
    assert_eq!(EmbedBuilder::with_title("T".to_string()).to_plain(), "T \u{2014} ");
}

#[test]
fn html_rendering_without_link() {
    assert_eq!(
        sample().to_html(),
        "<blockquote><strong>Title</strong><br><strong>Accuracy:</strong> 98.76%<br>\
         <strong>Play&lt;count&gt;:</strong> 1 &amp; 2</blockquote>"
    );
    assert_eq!(
        EmbedBuilder::with_title("T".to_string()).to_html(),
        "<blockquote><strong>T</strong><br></blockquote>"
    );
}

#[test]
fn html_rendering_with_link() {
    let e = sample().url("https://x.test/?a=1&b=\"2\"".to_string());
    assert_eq!(
        e.to_html(),
        "<blockquote><strong>Title</strong><br><strong>Accuracy:</strong> 98.76%<br>\
         <strong>Play&lt;count&gt;:</strong> 1 &amp; 2<br><a href=\"https://x.test/?a=1&amp;b=&quot;2&quot;\">View URL</a></blockquote>"
    );
    let e = e.url_text("Open".to_string()).title("New".to_string());
    assert!(e.to_html().ends_with(">Open</a></blockquote>"));
    assert!(e.to_html().starts_with("<blockquote><strong>New</strong><br>"));
}
