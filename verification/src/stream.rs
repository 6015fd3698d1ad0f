//! The stream parser: it offers the live window of a refill buffer to a
//! parser, reads another chunk when the parser needs more, and consumes what
//! the parser took.

use crate::scan::{
    grown, lemma_run_len_bounds, lemma_run_len_is, run_len, ByteClass, GrammarError, Outcome,
};
use crate::utils::{Buffer, BufferView, ByteSource};
use vstd::prelude::*;
use vstd::std_specs::convert::FromSpecImpl;

verus! {

/// `std::io::Error`, of which nothing is known but that it is a type.
#[verifier::external_type_specification]
#[verifier::external_body]
pub struct ExIoError(std::io::Error);

/// Why reading a waveform failed.
#[derive(Debug)]
pub enum VcdError {
    /// The source could not be read.
    IoError(std::io::Error),
    /// The input cannot be extended into a valid form.
    ParseError,
    /// The input ends in the middle of a form.
    MissingData,
    /// The header is not sealed yet.
    PartialHeader,
    /// The input holds a byte that is not 7-bit ASCII.
    Utf8Error,
    /// Everything was read already.
    EndOfInput,
}

impl VcdError {
    /// The failure in words: what the source said of it if it could not be
    /// read, and else the name of the kind of failure.
    pub fn describe(&self) -> (text: String)
        ensures
            match *self {
                VcdError::IoError(_) => true,
                VcdError::ParseError => text@ == "ParseError"@,
                VcdError::MissingData => text@ == "MissingData"@,
                VcdError::PartialHeader => text@ == "PartialHeader"@,
                VcdError::Utf8Error => text@ == "Utf8Error"@,
                VcdError::EndOfInput => text@ == "EndOfInput"@,
            },
    {
        match self {
            VcdError::IoError(e) => e.to_string(),
            VcdError::ParseError => "ParseError".to_string(),
            VcdError::MissingData => "MissingData".to_string(),
            VcdError::PartialHeader => "PartialHeader".to_string(),
            VcdError::Utf8Error => "Utf8Error".to_string(),
            VcdError::EndOfInput => "EndOfInput".to_string(),
        }
    }

    /// The failure of the source that lies under this one, if one does.
    pub fn source(&self) -> (cause: Option<&std::io::Error>)
        ensures
            cause is Some <==> *self is IoError,
            cause matches Some(e) ==> *self == VcdError::IoError(*e),
    {
        match self {
            VcdError::IoError(e) => Some(e),
            _ => None,
        }
    }
}

impl From<std::io::Error> for VcdError {
    fn from(e: std::io::Error) -> (err: VcdError) {
        VcdError::IoError(e)
    }
}

impl FromSpecImpl<std::io::Error> for VcdError {
    open spec fn obeys_from_spec() -> bool {
        true
    }

    open spec fn from_spec(e: std::io::Error) -> VcdError {
        VcdError::IoError(e)
    }
}

impl From<GrammarError> for VcdError {
    /// A form cut short is missing data; a form that cannot be is a parse error.
    fn from(e: GrammarError) -> (err: VcdError) {
        match e {
            GrammarError::Incomplete => VcdError::MissingData,
            GrammarError::Failure => VcdError::ParseError,
        }
    }
}

impl FromSpecImpl<GrammarError> for VcdError {
    open spec fn obeys_from_spec() -> bool {
        true
    }

    open spec fn from_spec(e: GrammarError) -> VcdError {
        match e {
            GrammarError::Incomplete => VcdError::MissingData,
            GrammarError::Failure => VcdError::ParseError,
        }
    }
}

/// A window this short is refilled after each form, while the source lasts.
pub const SHORT_WINDOW: usize = 256;

/// A stream as a mathematical value.
pub struct StreamView {
    /// The live bytes.
    pub window: Seq<u8>,
    /// The bytes that the source still holds.
    pub source: Seq<u8>,
    /// Whether a read has found the source at its end.
    pub end_of_input: bool,
    /// How many bytes one read asks for.
    pub chunk: nat,
    /// The number of dead bytes in front of the window.
    pub dead: nat,
    /// The room behind the window.
    pub spare: nat,
}

/// Whether one of `bytes` is not 7-bit ASCII.
pub open spec fn has_high(bytes: Seq<u8>) -> bool {
    exists|k: int| 0 <= k < bytes.len() && #[trigger] bytes[k] >= 128
}

/// `window` without the whitespace at its front.
pub open spec fn trimmed(window: Seq<u8>) -> Seq<u8> {
    window.skip(run_len(window, ByteClass::Space) as int)
}

/// What is left of a trimmed window does not begin with whitespace.
pub proof fn lemma_trimmed_is_trim(window: Seq<u8>)
    ensures
        run_len(trimmed(window), ByteClass::Space) == 0,
        run_len(window, ByteClass::Space) <= window.len(),
{
    lemma_run_len_bounds(window, ByteClass::Space);
    lemma_run_len_is(trimmed(window), ByteClass::Space, 0);
}

/// Joined bytes hold a byte that is not ASCII if one of the two parts does.
pub proof fn lemma_has_high_join(a: Seq<u8>, b: Seq<u8>)
    ensures
        has_high(a + b) <==> has_high(a) || has_high(b),
{
    let joined = a + b;
    if has_high(a) {
        let k = choose|k: int| 0 <= k < a.len() && #[trigger] a[k] >= 128;
        assert(joined[k] >= 128);
    }
    if has_high(b) {
        let k = choose|k: int| 0 <= k < b.len() && #[trigger] b[k] >= 128;
        assert(joined[a.len() + k] >= 128);
    }
    if has_high(joined) {
        let k = choose|k: int| 0 <= k < joined.len() && #[trigger] joined[k] >= 128;
        if k < a.len() {
            assert(a[k] >= 128);
        } else {
            assert(b[k - a.len()] >= 128);
        }
    }
}

/// A part of bytes that are all ASCII is all ASCII.
pub proof fn lemma_has_high_part(a: Seq<u8>, from: int, to: int)
    requires
        0 <= from <= to <= a.len(),
        !has_high(a),
    ensures
        !has_high(a.subrange(from, to)),
{
    if has_high(a.subrange(from, to)) {
        let k = choose|k: int| 0 <= k < to - from && #[trigger] a.subrange(from, to)[k] >= 128;
        assert(a[from + k] >= 128);
    }
}

impl StreamView {
    /// The buffer of the stream.
    pub open spec fn buffer(self) -> BufferView {
        BufferView { dead: self.dead, window: self.window, spare: self.spare, source: self.source }
    }

    /// The stream with `buffer` for its buffer.
    pub open spec fn with_buffer(self, buffer: BufferView) -> StreamView {
        StreamView {
            dead: buffer.dead,
            window: buffer.window,
            spare: buffer.spare,
            source: buffer.source,
            ..self
        }
    }

    /// Nothing is left: the source is at its end and the window is empty.
    pub open spec fn done(self) -> bool {
        self.end_of_input && self.window.len() == 0
    }

    /// How many bytes one read gives: a chunk, or all that the source still holds.
    pub open spec fn read_count(self) -> nat {
        self.buffer().refill_count(self.chunk)
    }

    /// The bytes that one read brings.
    pub open spec fn incoming(self) -> Seq<u8> {
        self.source.take(self.read_count() as int)
    }

    /// After one read: what was read stands at the end of the window.
    pub open spec fn read(self) -> StreamView {
        self.with_buffer(self.buffer().refill(self.chunk))
    }

    /// After one read and the trimming of the window.
    pub open spec fn read_trimmed(self) -> StreamView {
        self.with_buffer(self.buffer().refill(self.chunk).trim())
    }

    /// Whether a trimming refill goes on after its first read: the read gave
    /// nothing but whitespace, and whitespace was there.
    pub open spec fn trim_goes_on(self) -> bool {
        let padding = run_len(self.read().window, ByteClass::Space);
        padding != 0 && padding >= self.read_count()
    }

    /// A trimming refill: reads and trims until a read brings something other
    /// than whitespace, or nothing at all. The answer is how many bytes the
    /// last read brought beyond the whitespace; then the stream after it. A
    /// read that brings a byte that is not 7-bit ASCII ends it with an error,
    /// before anything is trimmed.
    pub open spec fn trim_refill(self) -> (Result<nat, VcdError>, StreamView)
        decreases self.source.len(), run_len(self.window, ByteClass::Space),
    {
        if has_high(self.incoming()) {
            (Err(VcdError::Utf8Error), self.read())
        } else if self.trim_goes_on() {
            proof {
                lemma_trimmed_is_trim(self.read().window);
                lemma_run_len_bounds(self.read().window, ByteClass::Space);
                assert(self.read_count() == 0 ==> self.read().window =~= self.window);
                assert(self.read_trimmed().window =~= trimmed(self.read().window));
            }
            self.read_trimmed().trim_refill()
        } else {
            (
                Ok((self.read_count() - run_len(self.read().window, ByteClass::Space)) as nat),
                self.read_trimmed(),
            )
        }
    }

    /// The stream after the end of the input was found. Unless the refill
    /// that found it trims, the window is closed with a line feed.
    pub open spec fn closed(self, trim: bool) -> StreamView {
        StreamView {
            end_of_input: true,
            ..if trim {
                self
            } else {
                self.with_buffer(self.buffer().push('\n' as u8))
            }
        }
    }

    /// What a refill answers, and the stream after it. A read that brings a
    /// byte that is not 7-bit ASCII is an error. A refill that brings nothing
    /// marks the end of the input.
    pub open spec fn refill(self, trim: bool) -> (Result<nat, VcdError>, StreamView) {
        let (res, after) = if trim {
            self.trim_refill()
        } else if has_high(self.incoming()) {
            (Err(VcdError::Utf8Error), self.read())
        } else {
            (Ok(self.read_count()), self.read())
        };
        match res {
            Ok(n) => if n == 0 {
                (Ok(0nat), after.closed(trim))
            } else {
                (Ok(n), after)
            },
            Err(e) => (Err(e), after),
        }
    }

    /// The bytes that were read from the source between this stream and `after`.
    pub open spec fn read_until(self, after: StreamView) -> Seq<u8> {
        self.source.take(self.source.len() - after.source.len())
    }
}

/// What a trimming refill reads: it ends with an error if and only if a byte
/// that it read is not 7-bit ASCII, and it brings no such byte into the window.
pub proof fn lemma_trim_refill_reads(v: StreamView)
    ensures
        v.trim_refill().1.source.len() <= v.source.len(),
        v.trim_refill().1.source == v.source.skip(
            v.source.len() - v.trim_refill().1.source.len(),
        ),
        v.trim_refill().0 is Err <==> has_high(v.read_until(v.trim_refill().1)),
        v.trim_refill().0 matches Err(e) ==> e is Utf8Error,
        v.trim_refill().0 is Ok && !has_high(v.window) ==> !has_high(v.trim_refill().1.window),
        v.trim_refill().1.end_of_input == v.end_of_input,
        v.trim_refill().1.chunk == v.chunk,
        v.trim_refill().1.window.len() + v.trim_refill().1.source.len() <= v.window.len()
            + v.source.len(),
        v.trim_refill().0 matches Ok(n) ==> n <= v.trim_refill().1.window.len(),
    decreases v.source.len(), run_len(v.window, ByteClass::Space),
{
    let rc = v.read_count();
    let incoming = v.incoming();
    let left = v.source.skip(rc as int);
    let w1 = v.read().window;
    assert(w1 =~= v.window + incoming);
    lemma_has_high_join(v.window, incoming);
    lemma_trimmed_is_trim(w1);
    lemma_run_len_bounds(w1, ByteClass::Space);
    assert(v.read_trimmed().window =~= trimmed(w1));
    if !has_high(w1) {
        lemma_has_high_part(w1, run_len(w1, ByteClass::Space) as int, w1.len() as int);
    }
    if has_high(incoming) {
        assert(v.read_until(v.read()) =~= incoming);
        assert(left =~= v.source.skip(v.source.len() - left.len()));
    } else if v.trim_goes_on() {
        assert(rc == 0 ==> w1 =~= v.window);
        let next = v.read_trimmed();
        lemma_trim_refill_reads(next);
        let last = next.trim_refill().1;
        let k = (left.len() - last.source.len()) as int;
        assert(v.source.skip(rc + k) =~= left.skip(k));
        assert(v.read_until(last) =~= incoming + next.read_until(last));
        lemma_has_high_join(incoming, next.read_until(last));
    } else {
        assert(v.read_until(v.read_trimmed()) =~= incoming);
        assert(left =~= v.source.skip(v.source.len() - left.len()));
    }
}

/// What a refill reads: it ends with an error if and only if a byte that it
/// read is not 7-bit ASCII, and it brings no such byte into the window.
pub proof fn lemma_refill_reads(v: StreamView, trim: bool)
    ensures
        v.refill(trim).1.source.len() <= v.source.len(),
        v.refill(trim).1.source == v.source.skip(v.source.len() - v.refill(trim).1.source.len()),
        v.refill(trim).0 is Err <==> has_high(v.read_until(v.refill(trim).1)),
        v.refill(trim).0 matches Err(e) ==> e is Utf8Error,
        v.refill(trim).0 is Ok && !has_high(v.window) ==> !has_high(v.refill(trim).1.window),
        v.refill(trim).1.chunk == v.chunk,
        v.refill(trim).0 matches Ok(n) ==> n <= v.refill(trim).1.window.len(),
{
    if trim {
        lemma_trim_refill_reads(v);
    } else {
        let rc = v.read_count();
        let incoming = v.incoming();
        let left = v.source.skip(rc as int);
        assert(v.read().window =~= v.window + incoming);
        lemma_has_high_join(v.window, incoming);
        assert(v.read_until(v.read()) =~= incoming);
        assert(left =~= v.source.skip(v.source.len() - left.len()));
        let feed = seq!['\n' as u8];
        assert(v.read().window.push('\n' as u8) =~= v.read().window + feed);
        lemma_has_high_join(v.read().window, feed);
        assert(!has_high(feed)) by {
            if has_high(feed) {
                let k = choose|k: int| 0 <= k < feed.len() && #[trigger] feed[k] >= 128;
            }
        }
    }
}

/// Offers the window of a refill buffer to parsers.
pub struct VcdStreamParser {
    buff: Buffer,
    chunk_size: usize,
    end_of_input: bool,
}

impl View for VcdStreamParser {
    type V = StreamView;

    closed spec fn view(&self) -> StreamView {
        StreamView {
            window: self.buff@.window,
            source: self.buff@.source,
            end_of_input: self.end_of_input,
            chunk: self.chunk_size as nat,
            dead: self.buff@.dead,
            spare: self.buff@.spare,
        }
    }
}

impl StreamView {
    /// A stream that has read nothing of `source`.
    pub open spec fn opened(source: Seq<u8>, chunk: nat) -> StreamView {
        StreamView {
            window: Seq::empty(),
            source,
            end_of_input: false,
            chunk,
            dead: 0,
            spare: 0,
        }
    }
}

impl VcdStreamParser {
    /// The buffer is well formed.
    pub closed spec fn wf(&self) -> bool {
        self.buff.wf()
    }

    /// A stream over `inner` that reads `chunk_size` bytes at a time.
    pub fn with_chunk_size(chunk_size: usize, inner: ByteSource) -> (stream: VcdStreamParser)
        ensures
            stream.wf(),
            stream@ == StreamView::opened(inner@, chunk_size as nat),
    {
        let capacity = if chunk_size <= usize::MAX / 2 {
            2 * chunk_size
        } else {
            chunk_size
        };
        VcdStreamParser {
            buff: Buffer::with_capacity(capacity, inner),
            chunk_size,
            end_of_input: false,
        }
    }

    /// Whether nothing is left: the source is at its end and the window is empty.
    pub fn done(&self) -> (done: bool)
        requires
            self.wf(),
        ensures
            done == self@.done(),
    {
        self.end_of_input && self.buff.len() == 0
    }

    /// The live bytes.
    pub fn data(&self) -> (window: &[u8])
        requires
            self.wf(),
        ensures
            window@ == self@.window,
    {
        self.buff.data()
    }

    /// Whether one of the last `n` bytes of the window is not 7-bit ASCII.
    fn brought_high(&self, n: usize) -> (high: bool)
        requires
            self.wf(),
            n <= self@.window.len(),
        ensures
            high == has_high(self@.window.skip(self@.window.len() - n)),
    {
        let window = self.buff.data();
        let from = window.len() - n;
        let ghost brought = self@.window.skip(self@.window.len() - n);
        let mut i: usize = from;
        while i < window.len()
            invariant
                from <= i <= window.len(),
                from == window.len() - n,
                window@ == self@.window,
                brought == self@.window.skip(self@.window.len() - n),
                forall|k: int| 0 <= k < i - from ==> #[trigger] brought[k] < 128,
            decreases window.len() - i,
        {
            if window[i] >= 128 {
                assert(brought[i - from] == window@[i as int]);
                assert(has_high(brought));
                return true;
            }
            assert(brought[i - from] == window@[i as int]);
            i += 1;
        }
        assert(!has_high(brought));
        false
    }

    /// Reads and trims until a read brings something other than whitespace,
    /// or nothing at all. Answers how many bytes the last read brought beyond
    /// the whitespace. A byte that is not 7-bit ASCII among those that a read
    /// brings is an error.
    pub fn trim_refill(&mut self) -> (res: Result<usize, VcdError>)
        requires
            old(self).wf(),
        ensures
            final(self).wf(),
            final(self)@ == old(self)@.trim_refill().1,
            match old(self)@.trim_refill().0 {
                Ok(n) => res matches Ok(m) && m == n,
                Err(e) => e is Utf8Error && res matches Err(VcdError::Utf8Error),
            },
    {
        loop
            invariant
                self.wf(),
                self@.trim_refill() == old(self)@.trim_refill(),
            decreases self@.source.len(), run_len(self@.window, ByteClass::Space),
        {
            let ghost before = self@;
            proof {
                lemma_trim_refill_reads(before);
            }
            let n = self.buff.refill(self.chunk_size);
            proof {
                assert(self@ == before.read());
                assert(self@.window.skip(self@.window.len() - n) =~= before.incoming());
            }
            if self.brought_high(n) {
                return Err(VcdError::Utf8Error);
            }
            let n_ws = self.buff.trim();
            proof {
                lemma_trimmed_is_trim(before.read().window);
                lemma_run_len_bounds(before.read().window, ByteClass::Space);
                assert(n == 0 ==> before.read().window =~= before.window);
                assert(self@ == before.read_trimmed());
                assert(self@.window =~= trimmed(before.read().window));
            }
            if n_ws == 0 || n_ws < n {
                return Ok(n - n_ws);
            }
        }
    }

    /// Refills the window from the source and answers how many bytes came.
    /// It fails if and only if a byte that it read is not 7-bit ASCII; if it
    /// succeeds, it has brought no such byte into the window. A refill that
    /// brings nothing marks the end of the input, and closes the window with
    /// a line feed unless it trims.
    pub fn refill(&mut self, trim: bool) -> (res: Result<usize, VcdError>)
        requires
            old(self).wf(),
        ensures
            final(self).wf(),
            final(self)@ == old(self)@.refill(trim).1,
            match old(self)@.refill(trim).0 {
                Ok(n) => res matches Ok(m) && m == n,
                Err(e) => e is Utf8Error && res matches Err(VcdError::Utf8Error),
            },
            final(self)@.source.len() <= old(self)@.source.len(),
            res is Err <==> has_high(old(self)@.read_until(final(self)@)),
            res is Ok && !has_high(old(self)@.window) ==> !has_high(final(self)@.window),
    {
        proof {
            lemma_refill_reads(self@, trim);
        }
        let n = if trim {
            self.trim_refill()?
        } else {
            let ghost before = self@;
            let n = self.buff.refill(self.chunk_size);
            proof {
                assert(self@ == before.read());
                assert(self@.window.skip(self@.window.len() - n) =~= before.incoming());
            }
            if self.brought_high(n) {
                return Err(VcdError::Utf8Error);
            }
            n
        };
        if n == 0 {
            self.end_of_input = true;
            if !trim {
                self.buff.push('\n' as u8);
            }
        }
        Ok(n)
    }
}

/// A parser that is offered the live window of a stream, as often as it asks
/// for more. It may keep a state of its own and work on a context `C`.
pub trait WindowParser<C: View>: View {
    /// What the parser makes of a form.
    type Output;

    /// What parser and context need to hold before a window is offered.
    spec fn ready(&self, context: &C) -> bool;

    /// What the parser answers when it is offered `window`.
    spec fn answer(state: Self::V, context: C::V, window: Seq<u8>) -> Outcome<Self::Output>;

    /// The states of parser and context after `window` was offered.
    spec fn next(state: Self::V, context: C::V, window: Seq<u8>) -> (Self::V, C::V);

    /// A form is never empty, and it lies in the window.
    proof fn lemma_takes_bytes(state: Self::V, context: C::V, window: Seq<u8>)
        ensures
            Self::answer(state, context, window) matches Outcome::Match { len, value: _ } ==> 1
                <= len <= window.len(),
    ;

    /// What the parser has decided on `window` it decides on every input
    /// that begins with `window`; only the whitespace behind the form may
    /// run on. A parser that asks for more has changed nothing.
    proof fn lemma_stable(state: Self::V, context: C::V, window: Seq<u8>, ext: Seq<u8>)
        ensures
            Self::answer(state, context, window) is Incomplete ==> Self::next(
                state,
                context,
                window,
            ) == (state, context),
            !(Self::answer(state, context, window) is Incomplete) ==> Self::answer(
                state,
                context,
                window + ext,
            ) == grown(Self::answer(state, context, window), window, ext) && Self::next(
                state,
                context,
                window + ext,
            ) == Self::next(state, context, window),
    ;

    /// Parses one form from the start of `window`. The answer is how many
    /// bytes of the window stand behind the form, and what the form gave.
    fn parse(&mut self, context: &mut C, window: &[u8]) -> (res: Result<
        (usize, Self::Output),
        GrammarError,
    >)
        requires
            old(self).ready(old(context)),
        ensures
            final(self).ready(final(context)),
            (final(self)@, final(context)@) == Self::next(old(self)@, old(context)@, window@),
            match Self::answer(old(self)@, old(context)@, window@) {
                Outcome::Match { len, value } => res matches Ok((behind, made)) && behind
                    == window@.len() - len && made == value,
                Outcome::Incomplete => res matches Err(GrammarError::Incomplete),
                Outcome::Failure => res matches Err(GrammarError::Failure),
            },
    ;
}

impl StreamView {
    /// The stream with the first `taken` bytes of the window consumed.
    pub open spec fn consume(self, taken: nat) -> StreamView {
        self.with_buffer(self.buffer().consume(taken))
    }

    /// The stream with the window moved to the start of its array.
    pub open spec fn compact(self) -> StreamView {
        self.with_buffer(self.buffer().shift())
    }

    /// After a form of `taken` bytes was parsed: the bytes are consumed; an
    /// empty window is refilled and trimmed; a short window is compacted and
    /// refilled while the source lasts.
    pub open spec fn advance(self, taken: nat) -> (Result<(), VcdError>, StreamView) {
        let left = self.consume(taken);
        if left.window.len() == 0 {
            match left.refill(true) {
                (Ok(_), after) => (Ok(()), after),
                (Err(e), after) => (Err(e), after),
            }
        } else if !left.end_of_input && left.window.len() <= SHORT_WINDOW {
            match left.compact().refill(false) {
                (Ok(_), after) => (Ok(()), after),
                (Err(e), after) => (Err(e), after),
            }
        } else {
            (Ok(()), left)
        }
    }

    /// After a parser asked for more. Once the end of the input was found
    /// and the window closed, the input ends in the middle of a form.
    /// Before that the window is refilled; the refill that finds the end of
    /// the input closes the window, which is then offered once more.
    pub open spec fn extend(self) -> (Result<(), VcdError>, StreamView) {
        if self.end_of_input {
            (Err(VcdError::MissingData), self)
        } else {
            match self.refill(false) {
                (Ok(_), after) => (Ok(()), after),
                (Err(e), after) => (Err(e), after),
            }
        }
    }

    /// How much is left to read: the bytes of the source, and one more while
    /// the end of the input has not been found.
    pub open spec fn unread(self) -> nat {
        self.source.len() + if self.end_of_input {
            0nat
        } else {
            1nat
        }
    }

    /// What running parser `P` answers, then the stream, the parser's state
    /// and the context after it. The window is offered to the parser; as
    /// long as it asks for more the window is refilled and offered again.
    pub open spec fn run_parser<C: View, P: WindowParser<C>>(self, state: P::V, context: C::V) -> (
        Result<P::Output, VcdError>,
        StreamView,
        (P::V, C::V),
    )
        decreases self.unread(),
    {
        let next = P::next(state, context, self.window);
        match P::answer(state, context, self.window) {
            Outcome::Match { len, value } => match self.advance(len) {
                (Ok(_), after) => (Ok(value), after, next),
                (Err(e), after) => (Err(e), after, next),
            },
            Outcome::Failure => (Err(VcdError::ParseError), self, next),
            Outcome::Incomplete => match self.extend() {
                (Ok(_), after) => {
                    proof {
                        lemma_refill_fuel(self, false);
                    }
                    after.run_parser::<C, P>(next.0, next.1)
                },
                (Err(e), after) => (Err(e), after, next),
            },
        }
    }

    /// A bound on the work that is left: the bytes not yet consumed, and one
    /// more while the end of the input has not been found.
    pub open spec fn fuel(self) -> nat {
        self.window.len() + self.unread()
    }
}

/// What a refill does to the work that is left.
pub proof fn lemma_refill_fuel(v: StreamView, trim: bool)
    ensures
        trim || !v.end_of_input ==> v.refill(trim).1.fuel() <= v.fuel(),
        !trim && !v.end_of_input && v.refill(trim).0 is Ok ==> v.refill(trim).1.unread()
            < v.unread() && v.refill(trim).1.fuel() == v.fuel(),
        v.refill(trim).1.chunk == v.chunk,
{
    lemma_trim_refill_reads(v);
}

/// Consuming a form leaves less work.
pub proof fn lemma_advance_fuel(v: StreamView, taken: nat)
    requires
        1 <= taken <= v.window.len(),
    ensures
        v.advance(taken).1.fuel() < v.fuel(),
        v.advance(taken).1.chunk == v.chunk,
{
    let left = v.consume(taken);
    lemma_refill_fuel(left, true);
    lemma_refill_fuel(left.compact(), false);
}

/// A parser that ran and matched has left less work.
pub proof fn lemma_run_parser_fuel<C: View, P: WindowParser<C>>(
    v: StreamView,
    state: P::V,
    context: C::V,
)
    ensures
        v.run_parser::<C, P>(state, context).0 is Ok ==> v.run_parser::<C, P>(
            state,
            context,
        ).1.fuel() < v.fuel(),
        v.run_parser::<C, P>(state, context).1.chunk == v.chunk,
    decreases v.unread(),
{
    P::lemma_takes_bytes(state, context, v.window);
    match P::answer(state, context, v.window) {
        Outcome::Match { len, value: _ } => {
            lemma_advance_fuel(v, len);
        },
        Outcome::Failure => {},
        Outcome::Incomplete => {
            lemma_refill_fuel(v, false);
            if v.extend().0 is Ok {
                let next = P::next(state, context, v.window);
                lemma_run_parser_fuel::<C, P>(v.extend().1, next.0, next.1);
            }
        },
    }
}

impl VcdStreamParser {
    /// Consumes the `taken` bytes of a form and refills the window as needed.
    pub fn advance(&mut self, taken: usize) -> (res: Result<(), VcdError>)
        requires
            old(self).wf(),
            taken <= old(self)@.window.len(),
        ensures
            final(self).wf(),
            res == old(self)@.advance(taken as nat).0,
            final(self)@ == old(self)@.advance(taken as nat).1,
    {
        proof {
            lemma_refill_reads(self@.consume(taken as nat), true);
            lemma_refill_reads(self@.consume(taken as nat).compact(), false);
        }
        self.buff.consume(taken);
        if self.buff.len() == 0 {
            let _ = self.refill(true)?;
        } else if !self.end_of_input && self.buff.len() <= SHORT_WINDOW {
            self.buff.shift();
            let _ = self.refill(false)?;
        }
        Ok(())
    }

    /// Refills the window for a parser that asked for more.
    pub fn extend(&mut self) -> (res: Result<(), VcdError>)
        requires
            old(self).wf(),
        ensures
            final(self).wf(),
            res == old(self)@.extend().0,
            final(self)@ == old(self)@.extend().1,
    {
        proof {
            lemma_refill_reads(self@, false);
        }
        if self.end_of_input {
            return Err(VcdError::MissingData);
        }
        let _ = self.refill(false)?;
        Ok(())
    }

    /// Runs `parser` on the stream: offers it the window, refills the window
    /// as long as the parser asks for more, and consumes the form it took.
    pub fn run_parser<C: View, P: WindowParser<C>>(
        &mut self,
        parser: &mut P,
        context: &mut C,
    ) -> (res: Result<P::Output, VcdError>)
        requires
            old(self).wf(),
            old(parser).ready(old(context)),
        ensures
            final(self).wf(),
            final(parser).ready(final(context)),
            res == old(self)@.run_parser::<C, P>(old(parser)@, old(context)@).0,
            final(self)@ == old(self)@.run_parser::<C, P>(old(parser)@, old(context)@).1,
            (final(parser)@, final(context)@) == old(self)@.run_parser::<C, P>(
                old(parser)@,
                old(context)@,
            ).2,
    {
        loop
            invariant
                self.wf(),
                parser.ready(context),
                self@.run_parser::<C, P>(parser@, context@) == old(self)@.run_parser::<C, P>(
                    old(parser)@,
                    old(context)@,
                ),
            decreases self@.unread(),
        {
            proof {
                P::lemma_takes_bytes(parser@, context@, self@.window);
                lemma_refill_fuel(self@, false);
            }
            let answer = parser.parse(context, self.buff.data());
            match answer {
                Ok((n_remaining, value)) => {
                    let consumed = self.buff.len() - n_remaining;
                    self.advance(consumed)?;
                    return Ok(value);
                },
                Err(GrammarError::Incomplete) => {
                    self.extend()?;
                },
                Err(GrammarError::Failure) => {
                    return Err(VcdError::ParseError);
                },
            }
        }
    }
}

} // verus!
