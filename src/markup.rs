//! The markup that each event stands for, as a sequence of pieces of text.
use vstd::prelude::*;
use crate::event::{CodeBlockKind, Event, LinkType, Tag};

verus! {

/// The texts held by a vector of strings.
pub open spec fn texts(v: Seq<String>) -> Seq<Seq<char>> {
    v.map_values(|s: String| s@)
}

pub open spec fn digit_char(d: nat) -> char {
    if d == 0 { '0' }
    else if d == 1 { '1' }
    else if d == 2 { '2' }
    else if d == 3 { '3' }
    else if d == 4 { '4' }
    else if d == 5 { '5' }
    else if d == 6 { '6' }
    else if d == 7 { '7' }
    else if d == 8 { '8' }
    else { '9' }
}

/// The decimal notation of `n`, without leading zeros.
pub open spec fn decimal(n: nat) -> Seq<char>
    decreases n,
{
    if n < 10 {
        seq![digit_char(n)]
    } else {
        decimal(n / 10).push(digit_char(n % 10))
    }
}

/// The address that a link or image points to: e-mail destinations get the
/// `mailto:` scheme, every other destination is used as it is.
pub open spec fn link_url(ty: LinkType, dest: Seq<char>) -> Seq<char> {
    if ty == LinkType::Email {
        "mailto:"@ + dest
    } else {
        dest
    }
}

/// The opening of an anchor or image: `open` is the element's start up to
/// and including ` href="`; the title attribute is left out when empty.
pub open spec fn linkish_pieces(open: Seq<char>, ty: LinkType, dest: Seq<char>, title: Seq<char>) -> Seq<Seq<char>> {
    seq![open, link_url(ty, dest)]
        + (if title.len() == 0 { Seq::<Seq<char>>::empty() } else { seq!["\" title=\""@, title] })
        + seq!["\">"@]
}

/// The markup that opens `t`, or `None` for a construct that is not rendered.
pub open spec fn start_pieces(t: Tag) -> Option<Seq<Seq<char>>> {
    match t {
        Tag::Paragraph => Some(seq!["<p>"@]),
        Tag::Heading(level) => Some(seq!["<h"@, decimal(level as nat), ">"@]),
        Tag::BlockQuote => Some(seq!["<blockquote>"@]),
        Tag::CodeBlock(CodeBlockKind::Fenced(lang)) => if lang@.len() == 0 {
            Some(seq!["<pre><code>"@])
        } else {
            Some(seq!["<pre><code class=\"language-"@, lang@, "\">"@])
        },
        Tag::CodeBlock(CodeBlockKind::Indented) => Some(seq!["<pre><code>"@]),
        Tag::List(Some(start)) => Some(seq!["<ol start=\""@, decimal(start as nat), "\">"@]),
        Tag::List(None) => Some(seq!["<ul>"@]),
        Tag::ListItem => Some(seq!["<li>"@]),
        Tag::Emphasis => Some(seq!["<em>"@]),
        Tag::Strong => Some(seq!["<strong>"@]),
        Tag::Strikethrough => Some(seq!["<del>"@]),
        Tag::Link(ty, dest, title) => Some(linkish_pieces("<a href=\""@, ty, dest@, title@)),
        Tag::Image(ty, dest, title) => Some(linkish_pieces("<img href=\""@, ty, dest@, title@)),
        _ => None,
    }
}

/// The markup that closes `t`, or `None` for a construct that is not rendered.
pub open spec fn end_pieces(t: Tag) -> Option<Seq<Seq<char>>> {
    match t {
        Tag::Paragraph => Some(seq!["</p>"@]),
        Tag::Heading(level) => Some(seq!["</h"@, decimal(level as nat), ">"@]),
        Tag::BlockQuote => Some(seq!["</blockquote>"@]),
        Tag::CodeBlock(_) => Some(seq!["</code></pre>"@]),
        Tag::List(Some(_)) => Some(seq!["</ol>"@]),
        Tag::List(None) => Some(seq!["</ul>"@]),
        Tag::ListItem => Some(seq!["</li>"@]),
        Tag::Emphasis => Some(seq!["</em>"@]),
        Tag::Strong => Some(seq!["</strong>"@]),
        Tag::Strikethrough => Some(seq!["</del>"@]),
        Tag::Link(..) => Some(seq!["</a>"@]),
        Tag::Image(..) => Some(seq!["</img>"@]),
        _ => None,
    }
}

/// The markup written for one event, or `None` for an event that is not
/// rendered (tables, footnotes).
pub open spec fn event_pieces(e: Event) -> Option<Seq<Seq<char>>> {
    match e {
        Event::StartTag(t) => start_pieces(t),
        Event::EndTag(t) => end_pieces(t),
        Event::Text(text) => Some(seq![text@]),
        Event::InlineCode(code) => Some(seq!["<code>"@, code@, "</code>"@]),
        Event::RawMarkup(html) => Some(seq![html@]),
        Event::FootnoteReference(_) => None,
        Event::SoftBreak => Some(seq!["\n"@]),
        Event::HardBreak => Some(seq!["<br />"@]),
        Event::ThematicBreak => Some(seq!["<hr />"@]),
        Event::TaskMarker(checked) => if checked {
            Some(seq!["<input disabled type=\"checkbox\" checked />"@])
        } else {
            Some(seq!["<input disabled type=\"checkbox\" />"@])
        },
    }
}

pub open spec fn supported(e: Event) -> bool {
    event_pieces(e) is Some
}

pub open spec fn all_supported(events: Seq<Event>) -> bool {
    forall|i: int| 0 <= i < events.len() ==> #[trigger] supported(events[i])
}

/// The pieces written for a sequence of events, every one of them supported.
pub open spec fn pieces_of(events: Seq<Event>) -> Seq<Seq<char>>
    decreases events.len(),
{
    if events.len() == 0 {
        Seq::empty()
    } else {
        pieces_of(events.drop_last()) + event_pieces(events.last()).unwrap_or(Seq::empty())
    }
}

/// How many events come before the first one that is not rendered.
pub open spec fn supported_len(events: Seq<Event>) -> nat
    decreases events.len(),
{
    if events.len() == 0 || !supported(events[0]) {
        0
    } else {
        1 + supported_len(events.drop_first())
    }
}

/// The pieces written for `events` when no write fails: those of every event
/// before the first one that is not rendered.
pub open spec fn emitted(events: Seq<Event>) -> Seq<Seq<char>> {
    pieces_of(events.take(supported_len(events) as int))
}

/// The markup for `events` as one text.
pub open spec fn html_of(events: Seq<Event>) -> Seq<char> {
    emitted(events).flatten()
}


fn digit_str(d: u64) -> (r: &'static str)
    requires
        d < 10,
    ensures
        r@ == seq![digit_char(d as nat)],
{
    if d == 0 {
        proof { reveal_strlit("0"); }
        "0"
    } else if d == 1 {
        proof { reveal_strlit("1"); }
        "1"
    } else if d == 2 {
        proof { reveal_strlit("2"); }
        "2"
    } else if d == 3 {
        proof { reveal_strlit("3"); }
        "3"
    } else if d == 4 {
        proof { reveal_strlit("4"); }
        "4"
    } else if d == 5 {
        proof { reveal_strlit("5"); }
        "5"
    } else if d == 6 {
        proof { reveal_strlit("6"); }
        "6"
    } else if d == 7 {
        proof { reveal_strlit("7"); }
        "7"
    } else if d == 8 {
        proof { reveal_strlit("8"); }
        "8"
    } else {
        proof { reveal_strlit("9"); }
        "9"
    }
}

/// Writes `n` in decimal.
pub fn decimal_string(n: u64) -> (r: String)
    ensures
        r@ == decimal(n as nat),
    decreases n,
{
    if n < 10 {
        String::from_str(digit_str(n))
    } else {
        let mut r = decimal_string(n / 10);
        r.append(digit_str(n % 10));
        r
    }
}

/// The address that a link or image points to.
pub fn get_link_url(ty: LinkType, dest: &str) -> (r: String)
    ensures
        r@ == link_url(ty, dest@),
{
    match ty {
        LinkType::Email => {
            let mut r = String::from_str("mailto:");
            r.append(dest);
            r
        },
        _ => String::from_str(dest),
    }
}

fn push_piece(v: &mut Vec<String>, s: &str)
    ensures
        texts(final(v)@) == texts(old(v)@).push(s@),
{
    v.push(String::from_str(s));
    assert(texts(final(v)@) =~= texts(old(v)@).push(s@));
}

fn pieces_of_one(s: &str) -> (r: Vec<String>)
    ensures
        texts(r@) == seq![s@],
{
    let mut v = Vec::new();
    push_piece(&mut v, s);
    assert(texts(v@) =~= seq![s@]);
    v
}

fn write_linkish(open: &str, ty: LinkType, dest: &str, title: &str) -> (r: Vec<String>)
    ensures
        texts(r@) == linkish_pieces(open@, ty, dest@, title@),
{
    let mut v = Vec::new();
    push_piece(&mut v, open);
    let url = get_link_url(ty, dest);
    push_piece(&mut v, url.as_str());
    if !title.is_empty() {
        push_piece(&mut v, "\" title=\"");
        push_piece(&mut v, title);
    }
    push_piece(&mut v, "\">");
    assert(texts(v@) =~= linkish_pieces(open@, ty, dest@, title@));
    v
}

fn surround(open: &str, inner: &str, close: &str) -> (r: Vec<String>)
    ensures
        texts(r@) == seq![open@, inner@, close@],
{
    let mut v = Vec::new();
    push_piece(&mut v, open);
    push_piece(&mut v, inner);
    push_piece(&mut v, close);
    assert(texts(v@) =~= seq![open@, inner@, close@]);
    v
}

/// The markup that opens `tag`, or `None` for a construct that is not rendered.
pub fn start_tag(tag: &Tag) -> (r: Option<Vec<String>>)
    ensures
        match r {
            Some(v) => start_pieces(*tag) == Some(texts(v@)),
            None => start_pieces(*tag) is None,
        },
{
    match tag {
        Tag::Paragraph => Some(pieces_of_one("<p>")),
        Tag::Heading(level) => {
            let digits = decimal_string(*level as u64);
            Some(surround("<h", digits.as_str(), ">"))
        },
        Tag::BlockQuote => Some(pieces_of_one("<blockquote>")),
        Tag::CodeBlock(CodeBlockKind::Fenced(lang)) => {
            if lang.as_str().is_empty() {
                Some(pieces_of_one("<pre><code>"))
            } else {
                Some(surround("<pre><code class=\"language-", lang.as_str(), "\">"))
            }
        },
        Tag::CodeBlock(CodeBlockKind::Indented) => Some(pieces_of_one("<pre><code>")),
        Tag::List(Some(start)) => {
            let digits = decimal_string(*start);
            Some(surround("<ol start=\"", digits.as_str(), "\">"))
        },
        Tag::List(None) => Some(pieces_of_one("<ul>")),
        Tag::ListItem => Some(pieces_of_one("<li>")),
        Tag::Emphasis => Some(pieces_of_one("<em>")),
        Tag::Strong => Some(pieces_of_one("<strong>")),
        Tag::Strikethrough => Some(pieces_of_one("<del>")),
        Tag::Link(ty, dest, title) => Some(write_linkish("<a href=\"", *ty, dest.as_str(), title.as_str())),
        Tag::Image(ty, dest, title) => Some(write_linkish("<img href=\"", *ty, dest.as_str(), title.as_str())),
        Tag::Table(_) | Tag::TableHead | Tag::TableRow | Tag::TableCell | Tag::FootnoteDefinition(_) => None,
    }
}

/// The markup that closes `tag`, or `None` for a construct that is not rendered.
pub fn end_tag(tag: &Tag) -> (r: Option<Vec<String>>)
    ensures
        match r {
            Some(v) => end_pieces(*tag) == Some(texts(v@)),
            None => end_pieces(*tag) is None,
        },
{
    match tag {
        Tag::Paragraph => Some(pieces_of_one("</p>")),
        Tag::Heading(level) => {
            let digits = decimal_string(*level as u64);
            Some(surround("</h", digits.as_str(), ">"))
        },
        Tag::BlockQuote => Some(pieces_of_one("</blockquote>")),
        Tag::CodeBlock(_) => Some(pieces_of_one("</code></pre>")),
        Tag::List(Some(_)) => Some(pieces_of_one("</ol>")),
        Tag::List(None) => Some(pieces_of_one("</ul>")),
        Tag::ListItem => Some(pieces_of_one("</li>")),
        Tag::Emphasis => Some(pieces_of_one("</em>")),
        Tag::Strong => Some(pieces_of_one("</strong>")),
        Tag::Strikethrough => Some(pieces_of_one("</del>")),
        Tag::Link(..) => Some(pieces_of_one("</a>")),
        Tag::Image(..) => Some(pieces_of_one("</img>")),
        Tag::Table(_) | Tag::TableHead | Tag::TableRow | Tag::TableCell | Tag::FootnoteDefinition(_) => None,
    }
}

/// The markup written for `event`, or `None` for an event that is not rendered.
pub fn event_markup(event: &Event) -> (r: Option<Vec<String>>)
    ensures
        match r {
            Some(v) => event_pieces(*event) == Some(texts(v@)),
            None => event_pieces(*event) is None,
        },
{
    match event {
        Event::StartTag(tag) => start_tag(tag),
        Event::EndTag(tag) => end_tag(tag),
        Event::Text(text) => Some(pieces_of_one(text.as_str())),
        Event::InlineCode(code) => Some(surround("<code>", code.as_str(), "</code>")),
        Event::RawMarkup(html) => Some(pieces_of_one(html.as_str())),
        Event::FootnoteReference(_) => None,
        Event::SoftBreak => Some(pieces_of_one("\n")),
        Event::HardBreak => Some(pieces_of_one("<br />")),
        Event::ThematicBreak => Some(pieces_of_one("<hr />")),
        Event::TaskMarker(checked) => {
            if *checked {
                Some(pieces_of_one("<input disabled type=\"checkbox\" checked />"))
            } else {
                Some(pieces_of_one("<input disabled type=\"checkbox\" />"))
            }
        },
    }
}

} // verus!
