//! The renderer: pulls events in order and writes their markup to a sink.
use vstd::prelude::*;
use crate::event::Event;
use crate::markup::{
    all_supported, emitted, event_markup, event_pieces, html_of, pieces_of, supported,
    supported_len, texts,
};
use crate::sink::{accepted_text, Sink, SinkError, StringSink, WriteRecord};

verus! {

/// Why a run stopped before the end of its events.
#[derive(Clone, Copy, Debug, PartialEq, Eq, Structural)]
pub enum RenderError {
    /// The sink refused a write.
    Sink(SinkError),
    /// An event stands for a construct that is not rendered (tables,
    /// footnotes).
    Unsupported,
}

/// The texts of the writes in `log`.
pub open spec fn attempted(log: Seq<WriteRecord>) -> Seq<Seq<char>> {
    log.map_values(|w: WriteRecord| w.0)
}

pub open spec fn all_accepted(log: Seq<WriteRecord>) -> bool {
    forall|i: int| 0 <= i < log.len() ==> (#[trigger] log[i]).1
}

/// Going from log `before` to log `after`, the sink was asked to write the
/// first pieces of `pieces`, in order, and nothing else; every write but the
/// last was accepted. `done` holds exactly when every piece was written and
/// accepted; otherwise the last write was refused and none followed it.
pub open spec fn wrote(
    before: Seq<WriteRecord>,
    after: Seq<WriteRecord>,
    pieces: Seq<Seq<char>>,
    done: bool,
) -> bool {
    let new = after.skip(before.len() as int);
    &&& before.len() <= after.len()
    &&& after.take(before.len() as int) == before
    &&& new.len() <= pieces.len()
    &&& attempted(new) == pieces.take(new.len() as int)
    &&& forall|i: int| 0 <= i < new.len() - 1 ==> (#[trigger] new[i]).1
    &&& done <==> (new.len() == pieces.len() && all_accepted(new))
    &&& !done ==> (new.len() > 0 && !new.last().1)
}

/// Once the sink refuses a write, no write follows it, and the writing is
/// reported as not done.
pub proof fn lemma_refused_write_is_last(
    before: Seq<WriteRecord>,
    after: Seq<WriteRecord>,
    pieces: Seq<Seq<char>>,
    done: bool,
    k: int,
)
    requires
        wrote(before, after, pieces, done),
        before.len() <= k < after.len(),
        !after[k].1,
    ensures
        k == after.len() - 1,
        !done,
{
    let new = after.skip(before.len() as int);
    assert(new[k - before.len()] == after[k]);
}

proof fn lemma_wrote_compose(
    a: Seq<WriteRecord>,
    b: Seq<WriteRecord>,
    c: Seq<WriteRecord>,
    p: Seq<Seq<char>>,
    q: Seq<Seq<char>>,
    done: bool,
)
    requires
        wrote(a, b, p, true),
        wrote(b, c, q, done),
    ensures
        wrote(a, c, p + q, done),
{
    let n1 = b.skip(a.len() as int);
    let n2 = c.skip(b.len() as int);
    let n = c.skip(a.len() as int);
    assert(c.take(b.len() as int) == b);
    assert(n =~= n1 + n2);
    assert(c.take(a.len() as int) =~= b.take(a.len() as int));
    assert(attempted(n) =~= attempted(n1) + attempted(n2));
    assert(attempted(n) =~= (p + q).take(n.len() as int));
    if n2.len() > 0 {
        assert(n.last() == n2.last());
    }
    assert forall|i: int| 0 <= i < n.len() - 1 implies (#[trigger] n[i]).1 by {
        if i < n1.len() {
            assert(n[i] == n1[i]);
        } else {
            assert(n[i] == n2[i - n1.len()]);
        }
    }
    if done {
        assert forall|i: int| 0 <= i < n.len() implies (#[trigger] n[i]).1 by {
            if i < n1.len() {
                assert(n[i] == n1[i]);
            } else {
                assert(n[i] == n2[i - n1.len()]);
            }
        }
    }
    if all_accepted(n) {
        assert forall|i: int| 0 <= i < n2.len() implies (#[trigger] n2[i]).1 by {
            assert(n[i + n1.len()] == n2[i]);
        }
    }
}

proof fn lemma_wrote_extend(
    a: Seq<WriteRecord>,
    b: Seq<WriteRecord>,
    p: Seq<Seq<char>>,
    q: Seq<Seq<char>>,
)
    requires
        wrote(a, b, p, false),
        p.len() <= q.len(),
        q.take(p.len() as int) == p,
    ensures
        wrote(a, b, q, false),
{
    let n = b.skip(a.len() as int);
    assert(q.take(n.len() as int) =~= p.take(n.len() as int));
}

proof fn lemma_wrote_nothing(a: Seq<WriteRecord>)
    ensures
        wrote(a, a, Seq::empty(), true),
{
    assert(a.take(a.len() as int) =~= a);
    assert(attempted(a.skip(a.len() as int)) =~= Seq::<Seq<char>>::empty().take(0));
}

proof fn lemma_supported_len_bound(events: Seq<Event>)
    ensures
        supported_len(events) <= events.len(),
    decreases events.len(),
{
    if events.len() > 0 {
        lemma_supported_len_bound(events.drop_first());
    }
}

/// The first `i` events are all supported, and the next one, if any, is not:
/// then `i` is where rendering stops.
proof fn lemma_supported_len(events: Seq<Event>, i: int)
    requires
        0 <= i <= events.len(),
        forall|j: int| 0 <= j < i ==> #[trigger] supported(events[j]),
    ensures
        i <= supported_len(events) <= events.len(),
        i == events.len() || !supported(events[i]) ==> supported_len(events) == i,
    decreases i,
{
    if i == 0 {
        lemma_supported_len_bound(events);
    } else {
        let rest = events.drop_first();
        assert forall|j: int| 0 <= j < i - 1 implies #[trigger] supported(rest[j]) by {
            assert(rest[j] == events[j + 1]);
        }
        lemma_supported_len(rest, i - 1);
        if i < events.len() {
            assert(rest[i - 1] == events[i]);
        }
    }
}

/// The pieces of the first `j` events start those of the first `k`.
proof fn lemma_pieces_prefix(events: Seq<Event>, j: int, k: int)
    requires
        0 <= j <= k <= events.len(),
    ensures
        pieces_of(events.take(j)).len() <= pieces_of(events.take(k)).len(),
        pieces_of(events.take(k)).take(pieces_of(events.take(j)).len() as int)
            == pieces_of(events.take(j)),
    decreases k - j,
{
    if j < k {
        lemma_pieces_prefix(events, j, k - 1);
        assert(events.take(k).drop_last() =~= events.take(k - 1));
        let pk = pieces_of(events.take(k));
        let pk1 = pieces_of(events.take(k - 1));
        let pj = pieces_of(events.take(j));
        assert(pk.take(pj.len() as int) =~= pk1.take(pj.len() as int));
    } else {
        assert(pieces_of(events.take(k)).take(pieces_of(events.take(j)).len() as int)
            =~= pieces_of(events.take(j)));
    }
}

/// When every write of `log` was accepted, the sink took the texts of all of
/// them, joined in order.
proof fn lemma_accepted_text(log: Seq<WriteRecord>)
    requires
        all_accepted(log),
    ensures
        accepted_text(log) == attempted(log).flatten(),
    decreases log.len(),
{
    if log.len() > 0 {
        let init = log.drop_last();
        assert(all_accepted(init)) by {
            assert forall|i: int| 0 <= i < init.len() implies (#[trigger] init[i]).1 by {
                assert(init[i] == log[i]);
            }
        }
        lemma_accepted_text(init);
        assert(log[log.len() - 1].1);
        assert(attempted(log) =~= attempted(init).push(log.last().0));
        attempted(init).lemma_flatten_push(log.last().0);
    } else {
        assert(attempted(log) =~= Seq::<Seq<char>>::empty());
    }
}

/// Renders a sequence of events into a sink, one event at a time.
pub struct HtmlWriter<S: Sink> {
    source: Vec<Event>,
    /// How many events of `source` have been taken.
    next: usize,
    sink: S,
}

impl<S: Sink> HtmlWriter<S> {
    /// The events not yet taken.
    pub closed spec fn source(&self) -> Seq<Event> {
        self.source@.skip(self.next as int)
    }

    /// The sink, as it stands.
    pub closed spec fn sink(&self) -> S {
        self.sink
    }

    /// The count of taken events stays within the events.
    pub closed spec fn wf(&self) -> bool {
        self.next <= self.source.len()
    }

    /// A renderer that will write the markup of `events` to `sink`.
    pub fn new(events: Vec<Event>, sink: S) -> (r: Self)
        ensures
            r.wf(),
            r.source() == events@,
            r.sink() == sink,
    {
        let r = HtmlWriter { source: events, next: 0, sink };
        assert(r.source@.skip(0) =~= r.source@);
        r
    }

    /// Gives up the renderer for its sink.
    pub fn into_sink(self) -> (r: S)
        ensures
            r == self.sink(),
    {
        self.sink
    }

    /// Writes every piece of `pieces` in order, stopping at the first one that
    /// the sink refuses.
    fn write_pieces(&mut self, pieces: &Vec<String>) -> (r: Result<(), SinkError>)
        requires
            old(self).sink().inv(),
        ensures
            final(self).sink().inv(),
            final(self).source@ == old(self).source@,
            final(self).next == old(self).next,
            wrote(old(self).sink().log(), final(self).sink().log(), texts(pieces@), r is Ok),
            old(self).sink().accepts_all() ==> r is Ok && final(self).sink().accepts_all(),
    {
        let ghost start = self.sink.log();
        proof {
            lemma_wrote_nothing(start);
            assert(texts(pieces@).take(0) =~= Seq::<Seq<char>>::empty());
        }
        let mut i: usize = 0;
        while i < pieces.len()
            invariant
                self.sink.inv(),
                self.source@ == old(self).source@,
                self.next == old(self).next,
                i <= pieces.len(),
                start == old(self).sink.log(),
                wrote(start, self.sink.log(), texts(pieces@).take(i as int), true),
                old(self).sink.accepts_all() ==> self.sink.accepts_all(),
            decreases pieces.len() - i,
        {
            let ghost before = self.sink.log();
            let res = self.sink.write_str(pieces[i].as_str());
            let ghost after = self.sink.log();
            proof {
                let one = seq![pieces@[i as int]@];
                let n = after.skip(before.len() as int);
                assert(n =~= seq![(pieces@[i as int]@, res is Ok)]);
                assert(n[0].1 == res is Ok);
                assert(all_accepted(n) <==> res is Ok);
                assert(after.take(before.len() as int) =~= before);
                assert(attempted(after.skip(before.len() as int)) =~= one.take(1));
                assert(wrote(before, after, one, res is Ok));
                lemma_wrote_compose(start, before, after, texts(pieces@).take(i as int), one, res is Ok);
                assert(texts(pieces@).take(i as int) + one =~= texts(pieces@).take(i + 1));
            }
            match res {
                Ok(()) => {},
                Err(e) => {
                    proof {
                        lemma_wrote_extend(start, after, texts(pieces@).take(i + 1), texts(pieces@));
                    }
                    return Err(e);
                },
            }
            i = i + 1;
        }
        proof {
            assert(texts(pieces@).take(i as int) =~= texts(pieces@));
        }
        Ok(())
    }

    /// Takes the pending events one at a time and writes the markup of each
    /// before taking the next.
    ///
    /// The sink is asked to write the markup of the events before the first
    /// one that is not rendered, piece by piece, and stops at the first
    /// write it refuses. The result is `Ok` when every event was rendered and
    /// every write accepted, and then no event is left pending.
    /// `Err(Unsupported)` comes when every write was accepted but some event
    /// is not rendered: that event is taken, and those after it are left
    /// pending. `Err(Sink(..))` comes when a write was refused, which was then
    /// the last write: the event it belongs to is taken, and those after it
    /// are left pending.
    pub fn run(&mut self) -> (r: Result<(), RenderError>)
        requires
            old(self).wf(),
            old(self).sink().inv(),
        ensures
            final(self).wf(),
            final(self).sink().inv(),
            final(self).source().len() <= old(self).source().len(),
            ({
                let ev = old(self).source();
                let n = ev.len() - final(self).source().len();
                let made = final(self).sink().log().len() - old(self).sink().log().len();
                &&& final(self).source() == ev.skip(n)
                &&& match r {
                    Ok(()) => n == ev.len(),
                    Err(RenderError::Unsupported) => n == supported_len(ev) + 1,
                    Err(RenderError::Sink(_)) => {
                        &&& 0 < n <= supported_len(ev)
                        &&& pieces_of(ev.take(n - 1)).len() < made <= pieces_of(ev.take(n)).len()
                    },
                }
            }),
            wrote(
                old(self).sink().log(),
                final(self).sink().log(),
                emitted(old(self).source()),
                !(r is Err && r->Err_0 is Sink),
            ),
            r is Ok ==> all_supported(old(self).source()),
            r == Err::<(), RenderError>(RenderError::Unsupported) ==> !all_supported(old(self).source()),
            old(self).sink().accepts_all() ==> !(r is Err && r->Err_0 is Sink),
    {
        let ghost ev = self.source();
        let ghost first = self.next as int;
        let ghost start = self.sink.log();
        proof {
            lemma_wrote_nothing(start);
            assert(ev.take(0) =~= Seq::<Event>::empty());
        }
        while self.next < self.source.len()
            invariant
                self.sink.inv(),
                self.source@ == old(self).source@,
                first == old(self).next,
                ev == old(self).source(),
                ev =~= self.source@.skip(first),
                start == old(self).sink.log(),
                first <= self.next <= self.source.len(),
                forall|j: int| 0 <= j < self.next - first ==> #[trigger] supported(ev[j]),
                wrote(start, self.sink.log(), pieces_of(ev.take(self.next - first)), true),
                old(self).sink.accepts_all() ==> self.sink.accepts_all(),
            decreases self.source.len() - self.next,
        {
            let ghost i = self.next - first;
            let markup = event_markup(&self.source[self.next]);
            assert(ev[i] == self.source@[self.next as int]);
            self.next = self.next + 1;
            proof {
                assert(self.source@.skip(self.next as int) =~= ev.skip(i + 1));
            }
            match markup {
                None => {
                    proof {
                        assert(!supported(ev[i]));
                        lemma_supported_len(ev, i);
                    }
                    return Err(RenderError::Unsupported);
                },
                Some(pieces) => {
                    let ghost before = self.sink.log();
                    let res = self.write_pieces(&pieces);
                    proof {
                        let after = self.sink.log();
                        lemma_wrote_compose(
                            start,
                            before,
                            after,
                            pieces_of(ev.take(i)),
                            texts(pieces@),
                            res is Ok,
                        );
                        assert(ev.take(i + 1).drop_last() =~= ev.take(i));
                        assert(pieces_of(ev.take(i + 1)) == pieces_of(ev.take(i)) + texts(pieces@));
                    }
                    match res {
                        Ok(()) => {},
                        Err(e) => {
                            proof {
                                assert(supported(ev[i]));
                                lemma_supported_len(ev, i + 1);
                                lemma_pieces_prefix(ev, i + 1, supported_len(ev) as int);
                                lemma_wrote_extend(
                                    start,
                                    self.sink.log(),
                                    pieces_of(ev.take(i + 1)),
                                    emitted(ev),
                                );
                                assert(self.sink.log().len() > before.len());
                            }
                            return Err(RenderError::Sink(e));
                        },
                    }
                },
            }
        }
        proof {
            let i = self.next - first;
            lemma_supported_len(ev, i);
            assert(ev.take(i) =~= ev);
            assert(self.source@.skip(self.next as int) =~= ev.skip(i));
        }
        Ok(())
    }
}

/// The markup of `events` as a string; `Err(Unsupported)` when one of them
/// stands for a construct that is not rendered.
pub fn render_html(events: Vec<Event>) -> (r: Result<String, RenderError>)
    ensures
        r is Ok <==> all_supported(events@),
        r is Ok ==> r->Ok_0@ == html_of(events@),
        r is Err ==> r->Err_0 == RenderError::Unsupported,
{
    let ghost ev = events@;
    let mut writer = HtmlWriter::new(events, StringSink::new());
    let res = writer.run();
    let sink = writer.into_sink();
    match res {
        Ok(()) => {
            proof {
                let log = sink.log();
                assert(log.skip(0) =~= log);
                lemma_accepted_text(log);
                assert(attempted(log) =~= emitted(ev).take(log.len() as int));
                assert(emitted(ev).take(log.len() as int) =~= emitted(ev));
            }
            Ok(sink.into_string())
        },
        Err(e) => Err(e),
    }
}

} // verus!
