use polar::event::{Alignment, CodeBlockKind, Event, LinkType, Tag};
use polar::html::{render_html, HtmlWriter, RenderError};
use polar::markup::{decimal_string, event_markup, get_link_url};
use polar::sink::{Sink, SinkError, StringSink};

fn s(text: &str) -> String {
    text.to_string()
}

fn html(events: Vec<Event>) -> String {
    render_html(events).expect("every event is rendered")
}

#[test]
fn text_is_written_verbatim() {
    assert_eq!(html(vec![Event::Text(s("abc"))]), "abc");
    assert_eq!(html(vec![Event::Text(s("a < b & c"))]), "a < b & c");
    assert_eq!(html(vec![Event::Text(s(""))]), "");
}

#[test]
fn code_span_round_trip() {
    assert_eq!(html(vec![Event::InlineCode(s("x<y"))]), "<code>x<y</code>");
    let pieces = event_markup(&Event::InlineCode(s("x<y"))).unwrap();
    assert_eq!(pieces, vec![s("<code>"), s("x<y"), s("</code>")]);
}

#[test]
fn fenced_code_with_language() {
    let tag = || Tag::CodeBlock(CodeBlockKind::Fenced(s("rust")));
    let out = html(vec![
        Event::StartTag(tag()),
        Event::Text(s("fn main(){}")),
        Event::EndTag(tag()),
    ]);
    assert_eq!(out, "<pre><code class=\"language-rust\">fn main(){}</code></pre>");
}

#[test]
fn fenced_code_without_language_and_indented_code() {
    let fenced = || Tag::CodeBlock(CodeBlockKind::Fenced(s("")));
    let out = html(vec![Event::StartTag(fenced()), Event::Text(s("x")), Event::EndTag(fenced())]);
    assert_eq!(out, "<pre><code>x</code></pre>");
    let indented = || Tag::CodeBlock(CodeBlockKind::Indented);
    let out = html(vec![Event::StartTag(indented()), Event::Text(s("y")), Event::EndTag(indented())]);
    assert_eq!(out, "<pre><code>y</code></pre>");
}

#[test]
fn ordered_list_start_attribute() {
    let out = html(vec![
        Event::StartTag(Tag::List(Some(5))),
        Event::StartTag(Tag::ListItem),
        Event::Text(s("five")),
        Event::EndTag(Tag::ListItem),
        Event::EndTag(Tag::List(Some(5))),
    ]);
    assert_eq!(out, "<ol start=\"5\"><li>five</li></ol>");
    let out = html(vec![
        Event::StartTag(Tag::List(None)),
        Event::StartTag(Tag::ListItem),
        Event::Text(s("dot")),
        Event::EndTag(Tag::ListItem),
        Event::EndTag(Tag::List(None)),
    ]);
    assert_eq!(out, "<ul><li>dot</li></ul>");
    assert!(!out.contains("start"));
}

#[test]
fn ordered_list_large_start() {
    let out = html(vec![Event::StartTag(Tag::List(Some(u64::MAX))), Event::EndTag(Tag::List(Some(u64::MAX)))]);
    assert_eq!(out, "<ol start=\"18446744073709551615\"></ol>");
}

#[test]
fn email_link_rewriting() {
    let tag = || Tag::Link(LinkType::Email, s("a@b.com"), s(""));
    let out = html(vec![Event::StartTag(tag()), Event::Text(s("mail")), Event::EndTag(tag())]);
    assert_eq!(out, "<a href=\"mailto:a@b.com\">mail</a>");
    assert!(!out.contains("title"));
}

#[test]
fn other_links_keep_destination_and_title() {
    let tag = || Tag::Link(LinkType::Inline, s("https://x.org/a"), s("X"));
    let out = html(vec![Event::StartTag(tag()), Event::Text(s("x")), Event::EndTag(tag())]);
    assert_eq!(out, "<a href=\"https://x.org/a\" title=\"X\">x</a>");
    assert_eq!(get_link_url(LinkType::Autolink, "a@b.com"), "a@b.com");
    assert_eq!(get_link_url(LinkType::Email, "a@b.com"), "mailto:a@b.com");
}

#[test]
fn image_is_closed_with_an_end_tag() {
    let tag = || Tag::Image(LinkType::Inline, s("cat.png"), s(""));
    let out = html(vec![Event::StartTag(tag()), Event::Text(s("cat")), Event::EndTag(tag())]);
    assert_eq!(out, "<img href=\"cat.png\">cat</img>");
    let tag = || Tag::Image(LinkType::Email, s("a@b.com"), s("t"));
    let out = html(vec![Event::StartTag(tag()), Event::EndTag(tag())]);
    assert_eq!(out, "<img href=\"mailto:a@b.com\" title=\"t\"></img>");
}

#[test]
fn nested_constructs_close_in_reverse_order() {
    let out = html(vec![
        Event::StartTag(Tag::BlockQuote),
        Event::StartTag(Tag::Paragraph),
        Event::StartTag(Tag::Emphasis),
        Event::StartTag(Tag::Strong),
        Event::Text(s("a")),
        Event::EndTag(Tag::Strong),
        Event::StartTag(Tag::Strikethrough),
        Event::Text(s("b")),
        Event::EndTag(Tag::Strikethrough),
        Event::EndTag(Tag::Emphasis),
        Event::EndTag(Tag::Paragraph),
        Event::EndTag(Tag::BlockQuote),
    ]);
    assert_eq!(
        out,
        "<blockquote><p><em><strong>a</strong><del>b</del></em></p></blockquote>"
    );
}

#[test]
fn headings_carry_their_level() {
    let out = html(vec![Event::StartTag(Tag::Heading(3)), Event::Text(s("t")), Event::EndTag(Tag::Heading(3))]);
    assert_eq!(out, "<h3>t</h3>");
    let out = html(vec![Event::StartTag(Tag::Heading(1)), Event::EndTag(Tag::Heading(1))]);
    assert_eq!(out, "<h1></h1>");
}

#[test]
fn breaks_rules_and_raw_markup() {
    let out = html(vec![
        Event::Text(s("a")),
        Event::SoftBreak,
        Event::Text(s("b")),
        Event::HardBreak,
        Event::ThematicBreak,
        Event::RawMarkup(s("<div>&amp;</div>")),
    ]);
    assert_eq!(out, "a\nb<br /><hr /><div>&amp;</div>");
}

#[test]
fn task_markers_follow_the_checked_flag() {
    assert_eq!(
        html(vec![Event::TaskMarker(true)]),
        "<input disabled type=\"checkbox\" checked />"
    );
    assert_eq!(
        html(vec![Event::TaskMarker(false)]),
        "<input disabled type=\"checkbox\" />"
    );
}

#[test]
fn empty_input_renders_nothing() {
    assert_eq!(html(vec![]), "");
}

#[test]
fn tables_and_footnotes_are_unsupported() {
    let cases = vec![
        Event::StartTag(Tag::Table(vec![Alignment::Left, Alignment::Unspecified])),
        Event::StartTag(Tag::TableHead),
        Event::StartTag(Tag::TableRow),
        Event::StartTag(Tag::TableCell),
        Event::StartTag(Tag::FootnoteDefinition(s("n"))),
        Event::EndTag(Tag::TableCell),
        Event::FootnoteReference(s("n")),
    ];
    for case in cases {
        assert_eq!(render_html(vec![case]), Err(RenderError::Unsupported));
    }
}

#[test]
fn unsupported_event_stops_the_run_after_earlier_output() {
    let mut writer = HtmlWriter::new(
        vec![
            Event::Text(s("before")),
            Event::StartTag(Tag::TableRow),
            Event::Text(s("after")),
        ],
        StringSink::new(),
    );
    assert_eq!(writer.run(), Err(RenderError::Unsupported));
    // The unsupported event was taken; the one after it is still pending.
    assert_eq!(writer.run(), Ok(()));
    assert_eq!(writer.into_sink().into_string(), "beforeafter");
}

#[test]
fn sink_failure_aborts_the_run() {
    // "<p>" fits, "hello" does not; "a" would fit but must not be written.
    let mut writer = HtmlWriter::new(
        vec![
            Event::StartTag(Tag::Paragraph),
            Event::Text(s("hello")),
            Event::Text(s("a")),
            Event::EndTag(Tag::Paragraph),
        ],
        StringSink::with_capacity_limit(4),
    );
    assert_eq!(writer.run(), Err(RenderError::Sink(SinkError)));
    assert_eq!(writer.into_sink().into_string(), "<p>");
}

#[test]
fn sink_failure_inside_a_code_span() {
    let mut writer = HtmlWriter::new(vec![Event::InlineCode(s("x<y")), Event::Text(s("z"))], StringSink::with_capacity_limit(7));
    assert_eq!(writer.run(), Err(RenderError::Sink(SinkError)));
    assert_eq!(writer.into_sink().into_string(), "<code>");
}

#[test]
fn run_succeeds_when_everything_fits() {
    let mut writer = HtmlWriter::new(
        vec![Event::StartTag(Tag::Paragraph), Event::Text(s("hi")), Event::EndTag(Tag::Paragraph)],
        StringSink::with_capacity_limit(9),
    );
    assert_eq!(writer.run(), Ok(()));
    assert_eq!(writer.into_sink().into_string(), "<p>hi</p>");
}

#[test]
fn a_second_run_writes_nothing() {
    let mut writer = HtmlWriter::new(vec![Event::Text(s("once"))], StringSink::new());
    assert_eq!(writer.run(), Ok(()));
    assert_eq!(writer.run(), Ok(()));
    assert_eq!(writer.into_sink().into_string(), "once");
}

#[test]
fn string_sink_refuses_whole_writes_beyond_capacity() {
    let mut sink = StringSink::with_capacity_limit(3);
    assert_eq!(sink.write_str("ab"), Ok(()));
    assert_eq!(sink.write_str("cd"), Err(SinkError));
    assert_eq!(sink.write_str("é"), Ok(()));
    assert_eq!(sink.as_str(), "abé");
    let mut open = StringSink::new();
    assert_eq!(open.push_text("xyz"), Ok(()));
    assert_eq!(open.into_string(), "xyz");
}

#[test]
fn decimal_notation() {
    assert_eq!(decimal_string(0), "0");
    assert_eq!(decimal_string(7), "7");
    assert_eq!(decimal_string(10), "10");
    assert_eq!(decimal_string(1234567890), "1234567890");
}

#[test]
fn events_after_a_refused_write_stay_pending() {
    let mut writer = HtmlWriter::new(
        vec![
            Event::StartTag(Tag::Paragraph),
            Event::Text(s("hello")),
            Event::Text(s("a")),
        ],
        StringSink::with_capacity_limit(4),
    );
    assert_eq!(writer.run(), Err(RenderError::Sink(SinkError)));
    // "hello" was taken and refused; "a" was not taken and is written now.
    assert_eq!(writer.run(), Ok(()));
    assert_eq!(writer.into_sink().into_string(), "<p>a");
}
