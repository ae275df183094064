//! The elements that each construct opens and closes, and the laws that tie
//! the rendered markup to them.
use vstd::prelude::*;
use vstd::seq_lib::lemma_flatten_concat;
use crate::event::{CodeBlockKind, Event, LinkType, Tag};
use crate::markup::{
    all_supported, decimal, emitted, end_pieces, event_pieces, html_of, link_url, linkish_pieces,
    pieces_of,
    start_pieces, supported, supported_len,
};

verus! {

/// The names of the elements that the start of `t` opens, outermost first.
pub open spec fn elements(t: Tag) -> Seq<Seq<char>> {
    match t {
        Tag::Paragraph => seq!["p"@],
        Tag::Heading(level) => seq!["h"@ + decimal(level as nat)],
        Tag::BlockQuote => seq!["blockquote"@],
        Tag::CodeBlock(_) => seq!["pre"@, "code"@],
        Tag::List(Some(_)) => seq!["ol"@],
        Tag::List(None) => seq!["ul"@],
        Tag::ListItem => seq!["li"@],
        Tag::Emphasis => seq!["em"@],
        Tag::Strong => seq!["strong"@],
        Tag::Strikethrough => seq!["del"@],
        Tag::Link(..) => seq!["a"@],
        Tag::Image(..) => seq!["img"@],
        _ => Seq::empty(),
    }
}

/// The title attribute of a link or image, left out when the title is empty.
pub open spec fn title_attribute(title: Seq<char>) -> Seq<char> {
    if title.len() == 0 {
        Seq::empty()
    } else {
        " title=\""@ + title + "\""@
    }
}

/// The attributes that the start of `t` gives each element it opens.
pub open spec fn attributes(t: Tag) -> Seq<Seq<char>> {
    match t {
        Tag::CodeBlock(CodeBlockKind::Fenced(lang)) => if lang@.len() == 0 {
            seq![Seq::empty(), Seq::empty()]
        } else {
            seq![Seq::empty(), " class=\"language-"@ + lang@ + "\""@]
        },
        Tag::CodeBlock(CodeBlockKind::Indented) => seq![Seq::empty(), Seq::empty()],
        Tag::List(Some(start)) => seq![" start=\""@ + decimal(start as nat) + "\""@],
        Tag::Link(ty, dest, title) => seq![" href=\""@ + link_url(ty, dest@) + "\""@ + title_attribute(title@)],
        Tag::Image(ty, dest, title) => seq![" href=\""@ + link_url(ty, dest@) + "\""@ + title_attribute(title@)],
        _ => seq![Seq::empty()],
    }
}

/// Opening tags for `names`, in order, each with its attributes.
pub open spec fn open_tags(names: Seq<Seq<char>>, attrs: Seq<Seq<char>>) -> Seq<char> {
    Seq::new(names.len(), |i: int| "<"@ + names[i] + attrs[i] + ">"@).flatten()
}

/// Closing tags for `names`, in order.
pub open spec fn close_tags(names: Seq<Seq<char>>) -> Seq<char> {
    Seq::new(names.len(), |i: int| "</"@ + names[i] + ">"@).flatten()
}

proof fn lemma_tags_one(n: Seq<char>, a: Seq<char>)
    ensures
        open_tags(seq![n], seq![a]) == "<"@ + n + a + ">"@,
        close_tags(seq![n]) == "</"@ + n + ">"@,
{
    Seq::new(1, |i: int| "<"@ + seq![n][i] + seq![a][i] + ">"@).lemma_flatten_singleton();
    Seq::new(1, |i: int| "</"@ + seq![n][i] + ">"@).lemma_flatten_singleton();
}

proof fn lemma_tags_two(n0: Seq<char>, n1: Seq<char>, a0: Seq<char>, a1: Seq<char>)
    ensures
        open_tags(seq![n0, n1], seq![a0, a1]) == "<"@ + n0 + a0 + ">"@ + ("<"@ + n1 + a1 + ">"@),
        close_tags(seq![n1, n0]) == "</"@ + n1 + ">"@ + ("</"@ + n0 + ">"@),
{
    let o = Seq::new(2, |i: int| "<"@ + seq![n0, n1][i] + seq![a0, a1][i] + ">"@);
    assert(o =~= seq![o[0]].push(o[1]));
    seq![o[0]].lemma_flatten_push(o[1]);
    seq![o[0]].lemma_flatten_singleton();
    let c = Seq::new(2, |i: int| "</"@ + seq![n1, n0][i] + ">"@);
    assert(c =~= seq![c[0]].push(c[1]));
    seq![c[0]].lemma_flatten_push(c[1]);
    seq![c[0]].lemma_flatten_singleton();
}

/// The start of a rendered construct is the opening tags of its elements,
/// outermost first, and its end is the closing tags of the same elements in
/// reverse order.
#[verifier::rlimit(80)]
pub proof fn lemma_tag_markup(t: Tag)
    requires
        start_pieces(t) is Some,
    ensures
        end_pieces(t) is Some,
        start_pieces(t)->0.flatten() == open_tags(elements(t), attributes(t)),
        end_pieces(t)->0.flatten() == close_tags(elements(t).reverse()),
{
    reveal_with_fuel(Seq::<_>::flatten, 6);
    reveal_strlit("<");
    reveal_strlit(">");
    reveal_strlit("</");
    reveal_strlit("\"");
    let names = elements(t);
    let attrs = attributes(t);
    let st = start_pieces(t)->0;
    let en = end_pieces(t)->0;
    if names.len() == 1 {
        lemma_tags_one(names[0], attrs[0]);
        assert(names.reverse() =~= names);
    }
    match t {
        Tag::Paragraph => {
            reveal_strlit("p");
            reveal_strlit("<p>");
            reveal_strlit("</p>");
            assert(st.flatten() =~= open_tags(names, attrs));
            assert(en.flatten() =~= close_tags(names.reverse()));
        },
        Tag::Heading(level) => {
            reveal_strlit("h");
            reveal_strlit("<h");
            reveal_strlit("</h");
            assert(st.flatten() =~= open_tags(names, attrs));
            assert(en.flatten() =~= close_tags(names.reverse()));
        },
        Tag::BlockQuote => {
            reveal_strlit("blockquote");
            reveal_strlit("<blockquote>");
            reveal_strlit("</blockquote>");
            assert(st.flatten() =~= open_tags(names, attrs));
            assert(en.flatten() =~= close_tags(names.reverse()));
        },
        Tag::CodeBlock(kind) => {
            reveal_strlit("pre");
            reveal_strlit("code");
            reveal_strlit("<pre><code>");
            reveal_strlit("<pre><code class=\"language-");
            reveal_strlit(" class=\"language-");
            reveal_strlit("\">");
            reveal_strlit("</code></pre>");
            lemma_tags_two(names[0], names[1], attrs[0], attrs[1]);
            assert(names.reverse() =~= seq![names[1], names[0]]);
        },
        Tag::List(Some(start)) => {
            reveal_strlit("ol");
            reveal_strlit("<ol start=\"");
            reveal_strlit(" start=\"");
            reveal_strlit("\">");
            reveal_strlit("</ol>");
            assert(st.flatten() =~= open_tags(names, attrs));
            assert(en.flatten() =~= close_tags(names.reverse()));
        },
        Tag::List(None) => {
            reveal_strlit("ul");
            reveal_strlit("<ul>");
            reveal_strlit("</ul>");
            assert(st.flatten() =~= open_tags(names, attrs));
            assert(en.flatten() =~= close_tags(names.reverse()));
        },
        Tag::ListItem => {
            reveal_strlit("li");
            reveal_strlit("<li>");
            reveal_strlit("</li>");
            assert(st.flatten() =~= open_tags(names, attrs));
            assert(en.flatten() =~= close_tags(names.reverse()));
        },
        Tag::Emphasis => {
            reveal_strlit("em");
            reveal_strlit("<em>");
            reveal_strlit("</em>");
            assert(st.flatten() =~= open_tags(names, attrs));
            assert(en.flatten() =~= close_tags(names.reverse()));
        },
        Tag::Strong => {
            reveal_strlit("strong");
            reveal_strlit("<strong>");
            reveal_strlit("</strong>");
            assert(st.flatten() =~= open_tags(names, attrs));
            assert(en.flatten() =~= close_tags(names.reverse()));
        },
        Tag::Strikethrough => {
            reveal_strlit("del");
            reveal_strlit("<del>");
            reveal_strlit("</del>");
            assert(st.flatten() =~= open_tags(names, attrs));
            assert(en.flatten() =~= close_tags(names.reverse()));
        },
        Tag::Link(ty, dest, title) => {
            reveal_strlit("a");
            reveal_strlit("<a href=\"");
            reveal_strlit(" href=\"");
            reveal_strlit("\" title=\"");
            reveal_strlit(" title=\"");
            reveal_strlit("\">");
            reveal_strlit("</a>");
            assert(st.flatten() =~= open_tags(names, attrs));
            assert(en.flatten() =~= close_tags(names.reverse()));
        },
        Tag::Image(ty, dest, title) => {
            reveal_strlit("img");
            reveal_strlit("<img href=\"");
            reveal_strlit(" href=\"");
            reveal_strlit("\" title=\"");
            reveal_strlit(" title=\"");
            reveal_strlit("\">");
            reveal_strlit("</img>");
            assert(st.flatten() =~= open_tags(names, attrs));
            assert(en.flatten() =~= close_tags(names.reverse()));
        },
        _ => {},
    }
}

/// The pieces of two sequences of events, one after the other, are those of
/// the first followed by those of the second.
pub proof fn lemma_pieces_concat(a: Seq<Event>, b: Seq<Event>)
    ensures
        pieces_of(a + b) == pieces_of(a) + pieces_of(b),
    decreases b.len(),
{
    if b.len() == 0 {
        assert(a + b =~= a);
        assert(pieces_of(a) + pieces_of(b) =~= pieces_of(a));
    } else {
        lemma_pieces_concat(a, b.drop_last());
        assert((a + b).drop_last() =~= a + b.drop_last());
        assert((a + b).last() == b.last());
        assert(pieces_of(a + b) =~= pieces_of(a) + pieces_of(b));
    }
}

/// A sequence of events that are all rendered is rendered whole.
pub proof fn lemma_emitted_all(events: Seq<Event>)
    requires
        all_supported(events),
    ensures
        supported_len(events) == events.len(),
        emitted(events) == pieces_of(events),
        html_of(events) == pieces_of(events).flatten(),
    decreases events.len(),
{
    if events.len() > 0 {
        let rest = events.drop_first();
        assert(all_supported(rest)) by {
            assert forall|j: int| 0 <= j < rest.len() implies #[trigger] supported(rest[j]) by {
                assert(rest[j] == events[j + 1]);
            }
        }
        lemma_emitted_all(rest);
        assert(supported(events[0]));
        assert(rest.take(rest.len() as int) =~= rest);
    }
    assert(events.take(events.len() as int) =~= events);
}

/// Balanced nesting: a construct that is rendered, around events that are
/// all rendered, comes out as the opening tags of its elements, then the
/// markup of what it encloses, then the closing tags of the same elements in
/// reverse order of opening.
pub proof fn lemma_balanced_nesting(t: Tag, inner: Seq<Event>)
    requires
        supported(Event::StartTag(t)),
        all_supported(inner),
    ensures
        supported(Event::EndTag(t)),
        all_supported(seq![Event::StartTag(t)] + inner + seq![Event::EndTag(t)]),
        html_of(seq![Event::StartTag(t)] + inner + seq![Event::EndTag(t)])
            == open_tags(elements(t), attributes(t)) + html_of(inner)
            + close_tags(elements(t).reverse()),
{
    lemma_tag_markup(t);
    let open = seq![Event::StartTag(t)];
    let close = seq![Event::EndTag(t)];
    let s = open + inner + close;
    assert forall|j: int| 0 <= j < s.len() implies #[trigger] supported(s[j]) by {
        if 0 < j < s.len() - 1 {
            assert(s[j] == inner[j - 1]);
        }
    }
    lemma_emitted_all(inner);
    lemma_emitted_all(s);
    lemma_pieces_concat(open, inner);
    lemma_pieces_concat(open + inner, close);
    assert(open.drop_last() =~= Seq::<Event>::empty());
    assert(close.drop_last() =~= Seq::<Event>::empty());
    let sp = start_pieces(t)->0;
    let ep = end_pieces(t)->0;
    assert(open.last() == Event::StartTag(t));
    assert(close.last() == Event::EndTag(t));
    assert(pieces_of(open.drop_last()) == Seq::<Seq<char>>::empty());
    assert(pieces_of(close.drop_last()) == Seq::<Seq<char>>::empty());
    assert(pieces_of(open) =~= sp);
    assert(pieces_of(close) =~= ep);
    lemma_flatten_concat(sp, pieces_of(inner));
    lemma_flatten_concat(sp + pieces_of(inner), ep);
}

proof fn lemma_single(e: Event)
    requires
        supported(e),
    ensures
        html_of(seq![e]) == event_pieces(e)->0.flatten(),
{
    let s = seq![e];
    assert forall|j: int| 0 <= j < s.len() implies #[trigger] supported(s[j]) by {}
    lemma_emitted_all(s);
    assert(s.drop_last() =~= Seq::<Event>::empty());
    assert(pieces_of(s.drop_last()) == Seq::<Seq<char>>::empty());
    assert(pieces_of(s) =~= event_pieces(e)->0);
}

/// Text is written as it is, in one write, with nothing changed.
pub proof fn lemma_text_verbatim(text: String)
    ensures
        event_pieces(Event::Text(text)) == Some(seq![text@]),
        html_of(seq![Event::Text(text)]) == text@,
{
    lemma_single(Event::Text(text));
    seq![text@].lemma_flatten_singleton();
}

/// A code span is written as three writes with nothing between them: the
/// opening code tag, the code as it is, and the closing code tag.
pub proof fn lemma_code_span(code: String)
    ensures
        event_pieces(Event::InlineCode(code)) == Some(seq!["<code>"@, code@, "</code>"@]),
        html_of(seq![Event::InlineCode(code)]) == "<code>"@ + code@ + "</code>"@,
{
    reveal_with_fuel(Seq::<_>::flatten, 4);
    lemma_single(Event::InlineCode(code));
    assert(seq!["<code>"@, code@, "</code>"@].flatten() =~= "<code>"@ + code@ + "</code>"@);
}

/// An e-mail link opens an anchor whose address is the destination behind
/// `mailto:`; an empty title gives no title attribute. Its end closes the
/// anchor.
pub proof fn lemma_email_link(dest: String, title: String)
    requires
        title@.len() == 0,
    ensures
        start_pieces(Tag::Link(LinkType::Email, dest, title))
            == Some(seq!["<a href=\""@, "mailto:"@ + dest@, "\">"@]),
        start_pieces(Tag::Link(LinkType::Email, dest, title))->0.flatten()
            == "<a href=\"mailto:"@ + dest@ + "\">"@,
        end_pieces(Tag::Link(LinkType::Email, dest, title)) == Some(seq!["</a>"@]),
{
    reveal_with_fuel(Seq::<_>::flatten, 4);
    reveal_strlit("<a href=\"");
    reveal_strlit("mailto:");
    reveal_strlit("<a href=\"mailto:");
    let p = seq!["<a href=\""@, "mailto:"@ + dest@, "\">"@];
    assert(linkish_pieces("<a href=\""@, LinkType::Email, dest@, title@) =~= p);
    assert(p.flatten() =~= "<a href=\"mailto:"@ + dest@ + "\">"@);
}

} // verus!
