//! Balanced nesting over whole event sequences: when the start and end tags
//! of the input pair up last-opened-first-closed, so do the elements of the
//! output.
use vstd::prelude::*;
use crate::elements::elements;
use crate::event::{Event, Tag};

verus! {

/// An element operation of the output: `(true, name)` opens the element
/// `name`, `(false, name)` closes it.
pub type ElementOp = (bool, Seq<char>);

/// The tags left open after `events`, starting from the open tags `open`;
/// `None` once an end tag does not close the tag opened last.
pub open spec fn apply_tags(open: Option<Seq<Tag>>, events: Seq<Event>) -> Option<Seq<Tag>>
    decreases events.len(),
{
    if events.len() == 0 {
        open
    } else {
        match apply_tags(open, events.drop_last()) {
            None => None,
            Some(st) => match events.last() {
                Event::StartTag(t) => Some(st.push(t)),
                Event::EndTag(t) => if st.len() > 0 && st.last() == t {
                    Some(st.drop_last())
                } else {
                    None
                },
                _ => Some(st),
            },
        }
    }
}

/// The events pair their start and end tags last-opened-first-closed, and
/// leave nothing open.
pub open spec fn well_nested(events: Seq<Event>) -> bool {
    apply_tags(Some(Seq::empty()), events) == Some(Seq::<Tag>::empty())
}

/// The elements left open after `ops`, starting from the open elements
/// `open`; `None` once a closing does not close the element opened last.
pub open spec fn apply_ops(open: Option<Seq<Seq<char>>>, ops: Seq<ElementOp>) -> Option<Seq<Seq<char>>>
    decreases ops.len(),
{
    if ops.len() == 0 {
        open
    } else {
        match apply_ops(open, ops.drop_last()) {
            None => None,
            Some(st) => if ops.last().0 {
                Some(st.push(ops.last().1))
            } else if st.len() > 0 && st.last() == ops.last().1 {
                Some(st.drop_last())
            } else {
                None
            },
        }
    }
}

pub open spec fn opens(names: Seq<Seq<char>>) -> Seq<ElementOp> {
    names.map_values(|n: Seq<char>| (true, n))
}

pub open spec fn closes(names: Seq<Seq<char>>) -> Seq<ElementOp> {
    names.map_values(|n: Seq<char>| (false, n))
}

/// The element operations of the markup of one event: a start tag opens
/// its elements in order, an end tag closes them in reverse order.
pub open spec fn event_ops(e: Event) -> Seq<ElementOp> {
    match e {
        Event::StartTag(t) => opens(elements(t)),
        Event::EndTag(t) => closes(elements(t).reverse()),
        _ => Seq::empty(),
    }
}

pub open spec fn element_ops(events: Seq<Event>) -> Seq<ElementOp>
    decreases events.len(),
{
    if events.len() == 0 {
        Seq::empty()
    } else {
        element_ops(events.drop_last()) + event_ops(events.last())
    }
}

/// The elements that a stack of open tags holds open, outermost first.
pub open spec fn open_elements(tags: Seq<Tag>) -> Seq<Seq<char>> {
    tags.map_values(|t: Tag| elements(t)).flatten()
}

proof fn lemma_apply_ops_concat(open: Option<Seq<Seq<char>>>, a: Seq<ElementOp>, b: Seq<ElementOp>)
    ensures
        apply_ops(open, a + b) == apply_ops(apply_ops(open, a), b),
    decreases b.len(),
{
    if b.len() == 0 {
        assert(a + b =~= a);
    } else {
        lemma_apply_ops_concat(open, a, b.drop_last());
        assert((a + b).drop_last() =~= a + b.drop_last());
        assert((a + b).last() == b.last());
    }
}

proof fn lemma_opens(st: Seq<Seq<char>>, names: Seq<Seq<char>>)
    ensures
        apply_ops(Some(st), opens(names)) == Some(st + names),
    decreases names.len(),
{
    if names.len() == 0 {
        assert(opens(names).len() == 0);
        assert(st + names =~= st);
    } else {
        lemma_opens(st, names.drop_last());
        assert(opens(names).drop_last() =~= opens(names.drop_last()));
        assert(st + names.drop_last() + seq![names.last()] =~= st + names);
    }
}

proof fn lemma_closes(st: Seq<Seq<char>>, names: Seq<Seq<char>>)
    ensures
        apply_ops(Some(st + names), closes(names.reverse())) == Some(st),
    decreases names.len(),
{
    if names.len() == 0 {
        assert(closes(names.reverse()).len() == 0);
        assert(st + names =~= st);
    } else {
        let init = names.drop_last();
        let first = closes(seq![names.last()]);
        assert(closes(names.reverse()) =~= first + closes(init.reverse()));
        lemma_apply_ops_concat(Some(st + names), first, closes(init.reverse()));
        assert(first.drop_last() =~= Seq::<ElementOp>::empty());
        assert(apply_ops(Some(st + names), first.drop_last()) == Some(st + names));
        assert(first.last() == (false, names.last()));
        assert((st + names).last() == names.last());
        assert((st + names).drop_last() =~= st + init);
        assert(apply_ops(Some(st + names), first) == Some(st + init));
        lemma_closes(st, init);
    }
}

proof fn lemma_open_elements_push(tags: Seq<Tag>, t: Tag)
    ensures
        open_elements(tags.push(t)) == open_elements(tags) + elements(t),
{
    let f = |t: Tag| elements(t);
    assert(tags.push(t).map_values(f) =~= tags.map_values(f).push(elements(t)));
    tags.map_values(f).lemma_flatten_push(elements(t));
}

/// Element by element, the markup of the events keeps open exactly the
/// elements of the tags that the events keep open.
pub proof fn lemma_open_elements_follow_tags(events: Seq<Event>)
    requires
        apply_tags(Some(Seq::empty()), events) is Some,
    ensures
        apply_ops(Some(Seq::empty()), element_ops(events))
            == Some(open_elements(apply_tags(Some(Seq::empty()), events)->0)),
    decreases events.len(),
{
    let start = Some(Seq::<Tag>::empty());
    if events.len() == 0 {
        let e = Seq::<Tag>::empty();
        assert(e.map_values(|t: Tag| elements(t)) =~= Seq::<Seq<Seq<char>>>::empty());
    } else {
        let init = events.drop_last();
        lemma_open_elements_follow_tags(init);
        let ts0 = apply_tags(start, init)->0;
        let before = open_elements(ts0);
        lemma_apply_ops_concat(Some(Seq::empty()), element_ops(init), event_ops(events.last()));
        match events.last() {
            Event::StartTag(t) => {
                lemma_opens(before, elements(t));
                lemma_open_elements_push(ts0, t);
            },
            Event::EndTag(t) => {
                let ts = ts0.drop_last();
                assert(ts.push(t) =~= ts0);
                lemma_open_elements_push(ts, t);
                lemma_closes(open_elements(ts), elements(t));
            },
            _ => {},
        }
    }
}

/// Balanced nesting: when the events pair their start and end tags
/// last-opened-first-closed, the markup closes every element it opens, in
/// reverse order of opening, and leaves none open.
pub proof fn lemma_balanced_output(events: Seq<Event>)
    requires
        well_nested(events),
    ensures
        apply_ops(Some(Seq::empty()), element_ops(events)) == Some(Seq::<Seq<char>>::empty()),
{
    lemma_open_elements_follow_tags(events);
    let e = Seq::<Tag>::empty();
    assert(e.map_values(|t: Tag| elements(t)) =~= Seq::<Seq<Seq<char>>>::empty());
}

} // verus!
