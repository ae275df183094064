//! Destinations for rendered markup.
use vstd::prelude::*;

verus! {

/// A sink refused a write.
#[derive(Clone, Copy, Debug, PartialEq, Eq, Structural)]
pub struct SinkError;

/// One write request made to a sink: the text and whether it was accepted.
pub type WriteRecord = (Seq<char>, bool);

/// The texts of the accepted writes of `log`, joined in order.
pub open spec fn accepted_text(log: Seq<WriteRecord>) -> Seq<char>
    decreases log.len(),
{
    if log.len() == 0 {
        Seq::empty()
    } else if log.last().1 {
        accepted_text(log.drop_last()) + log.last().0
    } else {
        accepted_text(log.drop_last())
    }
}

/// A destination that accepts text writes and may refuse any of them.
pub trait Sink {
    /// Every write requested so far, in order, with its outcome.
    spec fn log(&self) -> Seq<WriteRecord>;

    /// The sink's own consistency condition.
    spec fn inv(&self) -> bool;

    /// Whether the sink accepts every write from now on.
    spec fn accepts_all(&self) -> bool;

    fn write_str(&mut self, s: &str) -> (r: Result<(), SinkError>)
        requires
            old(self).inv(),
        ensures
            final(self).inv(),
            final(self).log() == old(self).log().push((s@, r is Ok)),
            old(self).accepts_all() ==> r is Ok && final(self).accepts_all(),
    ;
}

/// A sink that collects the text in memory, optionally up to a capacity
/// in characters beyond which a write is refused as a whole.
pub struct StringSink {
    out: String,
    limit: Option<usize>,
    writes: Ghost<Seq<WriteRecord>>,
}

impl StringSink {
    /// The text collected so far.
    pub closed spec fn contents(&self) -> Seq<char> {
        self.out@
    }

    /// The capacity in characters, if any.
    pub closed spec fn capacity(&self) -> Option<usize> {
        self.limit
    }

    /// A sink without a capacity: it accepts every write.
    pub fn new() -> (r: StringSink)
        ensures
            r.inv(),
            r.log() == Seq::<WriteRecord>::empty(),
            r.contents() == Seq::<char>::empty(),
            r.capacity() is None,
            r.accepts_all(),
    {
        StringSink { out: String::new(), limit: None, writes: Ghost(Seq::empty()) }
    }

    /// A sink that holds at most `limit` characters.
    pub fn with_capacity_limit(limit: usize) -> (r: StringSink)
        ensures
            r.inv(),
            r.log() == Seq::<WriteRecord>::empty(),
            r.contents() == Seq::<char>::empty(),
            r.capacity() == Some(limit),
    {
        StringSink { out: String::new(), limit: Some(limit), writes: Ghost(Seq::empty()) }
    }

    /// The text collected so far: that of the accepted writes.
    pub fn as_str(&self) -> (r: &str)
        requires
            self.inv(),
        ensures
            r@ == self.contents(),
            r@ == accepted_text(self.log()),
    {
        self.out.as_str()
    }

    /// Gives up the sink for the text it collected.
    pub fn into_string(self) -> (r: String)
        requires
            self.inv(),
        ensures
            r@ == self.contents(),
            r@ == accepted_text(self.log()),
    {
        self.out
    }

    /// Whether a write of `s` fits in what is left of the capacity.
    pub open spec fn fits(&self, s: Seq<char>) -> bool {
        match self.capacity() {
            Some(limit) => self.contents().len() + s.len() <= limit,
            None => true,
        }
    }

    /// Appends `s` if it fits, and otherwise leaves the text as it is.
    pub fn push_text(&mut self, s: &str) -> (r: Result<(), SinkError>)
        requires
            old(self).inv(),
        ensures
            final(self).inv(),
            final(self).log() == old(self).log().push((s@, r is Ok)),
            final(self).capacity() == old(self).capacity(),
            r is Ok <==> old(self).fits(s@),
            final(self).contents() == if r is Ok { old(self).contents() + s@ } else { old(self).contents() },
    {
        let ok = match self.limit {
            Some(limit) => {
                let have = self.out.as_str().unicode_len();
                let add = s.unicode_len();
                have <= limit && add <= limit - have
            },
            None => true,
        };
        let ghost prev = self.writes@;
        if ok {
            self.out.append(s);
        }
        self.writes = Ghost(prev.push((s@, ok)));
        proof {
            assert(self.writes@.drop_last() =~= prev);
        }
        if ok {
            Ok(())
        } else {
            Err(SinkError)
        }
    }
}

impl Sink for StringSink {
    closed spec fn log(&self) -> Seq<WriteRecord> {
        self.writes@
    }

    /// The text is what the accepted writes brought, and fits the capacity.
    closed spec fn inv(&self) -> bool {
        &&& self.out@ == accepted_text(self.writes@)
        &&& match self.limit {
            Some(limit) => self.out@.len() <= limit,
            None => true,
        }
    }

    fn write_str(&mut self, s: &str) -> (r: Result<(), SinkError>) {
        self.push_text(s)
    }

    /// A sink without a capacity accepts every write.
    open spec fn accepts_all(&self) -> bool {
        self.capacity() is None
    }
}

} // verus!
