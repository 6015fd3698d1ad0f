//! What a stream parser reads, told without the stream: the bytes that are
//! left of the input are one sequence, and a parser that runs on a stream
//! answers what it answers on that sequence, whatever the chunk size.

use crate::command::CommandView;
use crate::extent::{
    lemma_header_directive_closed, lemma_header_directive_within, lemma_vcd_command_closed,
    lemma_vcd_command_within,
};
use crate::grammar::{
    spec_directive_name, spec_mark, spec_vcd_bit_change, spec_vcd_change, spec_vcd_command,
    spec_vcd_cycle, spec_vcd_directive, spec_vcd_real_change, spec_vcd_vec_change,
};
use crate::header::{spec_header_directive, spec_header_name, HeaderParserView, VcdHeaderParser};
use crate::scan::{lemma_run_len_bounds, lemma_run_len_is, run_len, ByteClass, Outcome};
use crate::stability::lemma_run_ext;
use crate::stream::{
    has_high, lemma_has_high_join, lemma_has_high_part, lemma_trimmed_is_trim, trimmed,
    StreamView, VcdError, WindowParser,
};
use crate::vcd::{spec_feed, spec_process, CommandSink, CommandStep, HeaderStep, ParserView};
use vstd::prelude::*;

verus! {

impl StreamView {
    /// What follows the window: the bytes of the source and the line feed
    /// that closes the input, until the end of the input was found.
    pub open spec fn tail(self) -> Seq<u8> {
        if self.end_of_input {
            Seq::empty()
        } else {
            self.source + seq!['\n' as u8]
        }
    }

    /// The bytes that are left of the input.
    pub open spec fn rest(self) -> Seq<u8> {
        self.window + self.tail()
    }

    /// The stream reads at least one byte at a time, once the end of the
    /// input was found the source is empty, and every byte that is left of
    /// the input is 7-bit ASCII.
    pub open spec fn sound(self) -> bool {
        &&& self.chunk >= 1
        &&& self.end_of_input ==> self.source.len() == 0
        &&& !has_high(self.rest())
    }

    /// The window does not begin with whitespace.
    pub open spec fn poised(self) -> bool {
        self.window.len() == 0 || !ByteClass::Space.contains(self.window[0])
    }
}

/// A line feed is 7-bit ASCII.
pub proof fn lemma_feed_is_ascii()
    ensures
        !has_high(seq!['\n' as u8]),
{
    let feed = seq!['\n' as u8];
    if has_high(feed) {
        let k = choose|k: int| 0 <= k < feed.len() && #[trigger] feed[k] >= 128;
    }
}

/// A stream that has read nothing of a waveform of 7-bit ASCII is sound and
/// poised, and what is left of its input is the waveform and the line feed
/// that closes it.
pub proof fn lemma_opened_sound(file: Seq<u8>, chunk: nat)
    requires
        chunk >= 1,
        !has_high(file),
    ensures
        StreamView::opened(file, chunk).sound(),
        StreamView::opened(file, chunk).poised(),
        StreamView::opened(file, chunk).rest() == file + seq!['\n' as u8],
{
    assert(StreamView::opened(file, chunk).rest() =~= file + seq!['\n' as u8]);
    lemma_feed_is_ascii();
    lemma_has_high_join(file, seq!['\n' as u8]);
}

/// What is left of the input of a sound stream: window, source and tail are
/// 7-bit ASCII.
pub proof fn lemma_sound_parts(v: StreamView)
    requires
        v.sound(),
    ensures
        !has_high(v.window),
        !has_high(v.tail()),
        !has_high(v.source),
        !has_high(v.incoming()),
{
    lemma_has_high_join(v.window, v.tail());
    if !v.end_of_input {
        lemma_has_high_join(v.source, seq!['\n' as u8]);
        lemma_has_high_part(v.source, 0, v.read_count() as int);
    } else {
        assert(v.incoming() =~= Seq::<u8>::empty());
    }
}

/// Dropping leading whitespace does not change what is left after trimming.
pub proof fn lemma_trimmed_skip(x: Seq<u8>, k: nat)
    requires
        k <= run_len(x, ByteClass::Space),
    ensures
        trimmed(x.skip(k as int)) == trimmed(x),
        run_len(x.skip(k as int), ByteClass::Space) == run_len(x, ByteClass::Space) - k,
{
    lemma_run_len_bounds(x, ByteClass::Space);
    let n = run_len(x, ByteClass::Space);
    let y = x.skip(k as int);
    assert forall|i: int| 0 <= i < n - k implies ByteClass::Space.contains(#[trigger] y[i]) by {
        assert(y[i] == x[i + k]);
    }
    if n - k < y.len() {
        assert(y[n - k] == x[n as int]);
    }
    lemma_run_len_is(y, ByteClass::Space, (n - k) as nat);
    assert(y.skip(n - k) =~= x.skip(n as int));
}

/// Bytes that do not begin with whitespace are trimmed.
pub proof fn lemma_trimmed_same(x: Seq<u8>)
    requires
        x.len() == 0 || !ByteClass::Space.contains(x[0]),
    ensures
        trimmed(x) == x,
{
    lemma_run_len_is(x, ByteClass::Space, 0);
    assert(x.skip(0) =~= x);
}

/// A trimming refill of an empty window over a source of 7-bit ASCII leaves
/// the source without the whitespace at its front, and answers how long the
/// window is that it leaves.
pub proof fn lemma_trim_refill_rest(v: StreamView)
    requires
        v.chunk >= 1,
        v.window.len() == 0,
        !has_high(v.source),
    ensures
        v.trim_refill().0 matches Ok(n) && n == v.trim_refill().1.window.len(),
        v.trim_refill().1.window + v.trim_refill().1.source == trimmed(v.source),
        v.trim_refill().1.end_of_input == v.end_of_input,
        v.trim_refill().1.chunk == v.chunk,
        v.trim_refill().1.window.len() == 0 ==> v.trim_refill().1.source.len() == 0,
    decreases v.source.len(), run_len(v.window, ByteClass::Space),
{
    let rc = v.read_count();
    let w1 = v.read().window;
    let chunk = v.incoming();
    let left = v.source.skip(rc as int);
    assert(w1 =~= chunk);
    assert(v.source =~= chunk + left);
    lemma_has_high_part(v.source, 0, rc as int);
    lemma_has_high_part(v.source, rc as int, v.source.len() as int);
    assert(left =~= v.source.subrange(rc as int, v.source.len() as int));
    lemma_run_ext(chunk, left, ByteClass::Space);
    lemma_run_len_bounds(chunk, ByteClass::Space);
    lemma_trimmed_is_trim(w1);
    assert(v.read_trimmed().window =~= trimmed(w1));
    let pad = run_len(w1, ByteClass::Space);
    if v.trim_goes_on() {
        assert(pad == rc);
        assert(trimmed(w1).len() == 0);
        assert(v.read_trimmed().source == left);
        lemma_trim_refill_rest(v.read_trimmed());
        lemma_trimmed_skip(v.source, rc);
    } else {
        if rc == 0 {
            assert(v.source.len() == 0);
            assert(trimmed(v.source) =~= Seq::<u8>::empty());
            assert(trimmed(w1) + left =~= Seq::<u8>::empty());
        } else {
            assert(pad < rc);
            assert(trimmed(v.source) =~= trimmed(w1) + left);
        }
    }
}

/// A trimming refill of the empty window of a sound stream succeeds, and
/// what it leaves of the input is what was left of it, trimmed. It answers
/// zero if and only if nothing is left.
pub proof fn lemma_refill_trim_rest(v: StreamView)
    requires
        v.sound(),
        v.window.len() == 0,
    ensures
        v.refill(true).0 is Ok,
        v.refill(true).1.sound(),
        v.refill(true).1.poised(),
        v.refill(true).1.rest() == trimmed(v.rest()),
        v.refill(true).0->Ok_0 == 0 <==> v.refill(true).1.rest().len() == 0,
        v.refill(true).0->Ok_0 == 0 ==> v.refill(true).1.done(),
{
    lemma_sound_parts(v);
    let feed = seq!['\n' as u8];
    lemma_feed_is_ascii();
    let after = v.refill(true).1;
    lemma_trim_refill_rest(v);
    let mid = v.trim_refill().1;
    let n = v.trim_refill().0->Ok_0;
    if v.end_of_input {
        assert(v.source =~= Seq::<u8>::empty());
        assert(trimmed(v.source) =~= Seq::<u8>::empty());
        assert(v.rest() =~= Seq::<u8>::empty());
        assert(trimmed(v.rest()) =~= Seq::<u8>::empty());
        assert(after.rest() =~= Seq::<u8>::empty());
    } else {
        lemma_run_len_bounds(v.source, ByteClass::Space);
        lemma_run_ext(v.source, feed, ByteClass::Space);
        lemma_run_len_bounds(feed, ByteClass::Space);
        assert(run_len(feed, ByteClass::Space) == 1) by {
            lemma_run_len_is(feed, ByteClass::Space, 1);
        }
        lemma_trimmed_is_trim(v.source);
        assert(v.rest() =~= v.source + feed);
        let pad = run_len(v.source, ByteClass::Space);
        lemma_has_high_part(v.source, pad as int, v.source.len() as int);
        assert(trimmed(v.source) =~= v.source.subrange(pad as int, v.source.len() as int));
        if n == 0 {
            assert(trimmed(v.source).len() == 0);
            assert(trimmed(v.rest()) =~= Seq::<u8>::empty());
            assert(after.rest() =~= Seq::<u8>::empty());
        } else {
            assert(mid.window.len() > 0);
            assert(trimmed(v.source).len() > 0);
            assert(trimmed(v.rest()) =~= trimmed(v.source) + feed);
            assert(after.rest() =~= (mid.window + mid.source) + feed);
            lemma_has_high_join(trimmed(v.source), feed);
            assert((mid.window + mid.source)[0] == mid.window[0]);
            assert(trimmed(v.source)[0] == v.source[pad as int]);
        }
    }
}

/// A refill of a sound stream that does not trim succeeds before the end of
/// the input was found, and leaves of the input what was left of it.
pub proof fn lemma_refill_plain_rest(v: StreamView)
    requires
        v.sound(),
        !v.end_of_input,
    ensures
        v.refill(false).0 is Ok,
        v.refill(false).1.sound(),
        v.refill(false).1.rest() == v.rest(),
        v.refill(false).1.unread() < v.unread(),
        v.poised() && v.window.len() > 0 ==> v.refill(false).1.poised(),
{
    lemma_sound_parts(v);
    let after = v.refill(false).1;
    assert(after.rest() =~= v.rest());
    if v.window.len() > 0 {
        assert(v.read().window[0] == v.window[0]);
        assert(after.window[0] == v.window[0]);
    }
}

/// After a form was consumed from a sound stream, what is left of the input
/// is what stood behind the form; if the form reached the end of the window,
/// it is trimmed.
pub proof fn lemma_advance_rest(v: StreamView, taken: nat)
    requires
        v.sound(),
        taken <= v.window.len(),
    ensures
        v.advance(taken).0 is Ok,
        v.advance(taken).1.sound(),
        taken < v.window.len() ==> v.advance(taken).1.rest() == v.rest().skip(taken as int),
        taken == v.window.len() ==> v.advance(taken).1.rest() == trimmed(v.tail()),
{
    let left = v.consume(taken);
    assert(left.rest() =~= v.rest().skip(taken as int));
    lemma_has_high_part(v.rest(), taken as int, v.rest().len() as int);
    assert(v.rest().skip(taken as int) =~= v.rest().subrange(taken as int, v.rest().len() as int));
    if left.window.len() == 0 {
        lemma_refill_trim_rest(left);
        assert(left.rest() =~= v.tail());
    } else if !left.end_of_input && left.window.len() <= crate::stream::SHORT_WINDOW {
        let moved = left.compact();
        assert(moved.rest() == left.rest());
        lemma_refill_plain_rest(moved);
    }
}

/// What a parser that runs on a sound stream answers is what it answers on
/// all that is left of the input: its match, after which the form is
/// consumed with the whitespace behind it; a parse error where it fails;
/// missing data where it asks for more than there is.
pub proof fn lemma_run_parser_canon<C: View, P: WindowParser<C>>(
    v: StreamView,
    state: P::V,
    context: C::V,
)
    requires
        v.sound(),
    ensures
        match P::answer(state, context, v.rest()) {
            Outcome::Match { len, value } => {
                &&& v.run_parser::<C, P>(state, context).0 == Ok::<P::Output, VcdError>(value)
                &&& 1 <= len <= v.rest().len()
                &&& v.run_parser::<C, P>(state, context).1.rest() == v.rest().skip(len as int)
                &&& v.run_parser::<C, P>(state, context).1.sound()
            },
            Outcome::Failure => v.run_parser::<C, P>(state, context).0 == Err::<
                P::Output,
                VcdError,
            >(VcdError::ParseError),
            Outcome::Incomplete => v.run_parser::<C, P>(state, context).0 == Err::<
                P::Output,
                VcdError,
            >(VcdError::MissingData),
        },
        v.run_parser::<C, P>(state, context).2 == P::next(state, context, v.rest()),
    decreases v.unread(),
{
    P::lemma_takes_bytes(state, context, v.window);
    P::lemma_takes_bytes(state, context, v.rest());
    P::lemma_stable(state, context, v.window, v.tail());
    P::lemma_stable(state, context, v.rest(), Seq::empty());
    match P::answer(state, context, v.window) {
        Outcome::Match { len: taken, value: _ } => {
            lemma_advance_rest(v, taken);
            if taken == v.window.len() {
                let j = run_len(v.tail(), ByteClass::Space);
                lemma_run_len_bounds(v.tail(), ByteClass::Space);
                assert(v.rest().skip((taken + j) as int) =~= v.tail().skip(j as int));
            }
        },
        Outcome::Failure => {},
        Outcome::Incomplete => {
            if v.end_of_input {
                assert(v.rest() =~= v.window);
            } else {
                lemma_refill_plain_rest(v);
                let next = P::next(state, context, v.window);
                lemma_run_parser_canon::<C, P>(v.extend().1, next.0, next.1);
            }
        },
    }
}

/// A record begins with a byte that is no whitespace.
pub proof fn lemma_command_begins(x: Seq<u8>)
    ensures
        spec_vcd_command(x) is Match ==> x.len() > 0 && !ByteClass::Space.contains(x[0]),
{
    reveal(spec_vcd_command);
    reveal(spec_vcd_change);
    reveal(spec_vcd_bit_change);
    reveal(spec_vcd_vec_change);
    reveal(spec_vcd_real_change);
    reveal(spec_vcd_cycle);
    reveal(spec_vcd_directive);
    reveal(spec_directive_name);
    reveal(spec_mark);
}

/// A header directive begins with a byte that is no whitespace.
pub proof fn lemma_directive_begins(sealed: bool, x: Seq<u8>)
    ensures
        spec_header_directive(sealed, x) is Match ==> x.len() > 0 && !ByteClass::Space.contains(
            x[0],
        ),
{
    reveal(spec_header_directive);
    reveal(spec_header_name);
}

/// What handing the records of some bytes to a sink comes to.
pub struct Fed<V> {
    /// How it ended: well, or with the failure of a record.
    pub res: Result<(), VcdError>,
    /// The sink after the records.
    pub sink: V,
    /// What is left of the bytes.
    pub left: Seq<u8>,
    /// Whether the sink asked to stop.
    pub stopped: bool,
}

/// The sink after it was handed the records of the bytes `x`, one after the
/// other, until it asked to stop or no byte was left. Bytes that are no
/// record end it with a parse error; bytes that are only the beginning of
/// a record, with missing data.
pub open spec fn fed<S: CommandSink>(x: Seq<u8>, sink: S::V, stopped: bool) -> Fed<S::V>
    decreases x.len(),
{
    if stopped || x.len() == 0 {
        Fed { res: Ok(()), sink, left: x, stopped }
    } else {
        match spec_vcd_command(x) {
            Outcome::Match { len, value } => {
                proof {
                    lemma_vcd_command_within(x);
                }
                fed::<S>(x.skip(len as int), S::absorb(sink, value), S::stops(sink, value))
            },
            Outcome::Incomplete => Fed { res: Err(VcdError::MissingData), sink, left: x, stopped },
            Outcome::Failure => Fed { res: Err(VcdError::ParseError), sink, left: x, stopped },
        }
    }
}

/// The time of the first time record among the records of the bytes `x`,
/// if there is one.
pub open spec fn next_time(x: Seq<u8>) -> Option<u64>
    decreases x.len(),
{
    if x.len() == 0 {
        None
    } else {
        match spec_vcd_command(x) {
            Outcome::Match { len, value } => match value {
                CommandView::SetCycle(t) => Some(t),
                _ => {
                    proof {
                        lemma_vcd_command_within(x);
                    }
                    next_time(x.skip(len as int))
                },
            },
            _ => None,
        }
    }
}

/// What loading a header from some bytes comes to.
pub struct Loaded {
    /// How it ended: well, or with the failure of a directive.
    pub res: Result<(), VcdError>,
    /// The header parser after the directives.
    pub header: HeaderParserView,
    /// What is left of the bytes.
    pub left: Seq<u8>,
}

/// The header parser after it took the directives of the bytes `x`, one
/// after the other, up to the one that seals the header. Bytes that are no
/// directive end it with a parse error; bytes that are only the beginning
/// of a directive, with missing data.
pub open spec fn loaded(x: Seq<u8>, header: HeaderParserView) -> Loaded
    decreases x.len(),
{
    match spec_header_directive(header.sealed, x) {
        Outcome::Match { len, value } => {
            let next = header.apply(value);
            if value is EndDefinitions {
                Loaded { res: Ok(()), header: next, left: x.skip(len as int) }
            } else {
                proof {
                    lemma_header_directive_within(header.sealed, x);
                }
                loaded(x.skip(len as int), next)
            }
        },
        Outcome::Incomplete => Loaded { res: Err(VcdError::MissingData), header, left: x },
        Outcome::Failure => Loaded { res: Err(VcdError::ParseError), header, left: x },
    }
}

/// A stream whose input begins with a byte that is no whitespace, or has
/// none left, is poised.
pub proof fn lemma_poised(v: StreamView)
    requires
        v.rest().len() == 0 || !ByteClass::Space.contains(v.rest()[0]),
    ensures
        v.poised(),
{
    if v.window.len() > 0 {
        assert(v.rest()[0] == v.window[0]);
    }
}

/// Handing the records of a sound stream to a sink comes to what handing
/// the records of what is left of the input comes to, whatever the chunk size.
pub proof fn lemma_feed_canon<S: CommandSink>(v: StreamView, sink: S::V, stopped: bool)
    requires
        v.sound(),
        v.poised(),
    ensures
        spec_feed::<S>(v, sink, stopped).0 == fed::<S>(v.rest(), sink, stopped).res,
        spec_feed::<S>(v, sink, stopped).2 == fed::<S>(v.rest(), sink, stopped).sink,
        spec_feed::<S>(v, sink, stopped).0 is Ok ==> {
            &&& spec_feed::<S>(v, sink, stopped).1.rest() == fed::<S>(v.rest(), sink, stopped).left
            &&& spec_feed::<S>(v, sink, stopped).1.sound()
            &&& spec_feed::<S>(v, sink, stopped).1.poised()
            &&& !fed::<S>(v.rest(), sink, stopped).stopped ==> spec_feed::<S>(
                v,
                sink,
                stopped,
            ).1.done()
        },
    decreases v.fuel(),
{
    if stopped {
    } else if v.done() {
        assert(v.rest() =~= Seq::<u8>::empty());
    } else {
        assert(v.rest().len() > 0) by {
            if v.end_of_input {
                assert(v.rest() =~= v.window);
            }
        }
        let run = v.run_parser::<S, CommandStep>(stopped, sink);
        lemma_run_parser_canon::<S, CommandStep>(v, stopped, sink);
        crate::stream::lemma_run_parser_fuel::<S, CommandStep>(v, stopped, sink);
        lemma_vcd_command_closed(v.rest());
        if let Outcome::Match { len, value } = spec_vcd_command(v.rest()) {
            if len < v.rest().len() {
                assert(v.rest().skip(len as int)[0] == v.rest()[len as int]);
            }
            lemma_poised(run.1);
            lemma_feed_canon::<S>(run.1, run.2.1, run.2.0);
        }
    }
}

/// Processing the records of a sound stream comes to what handing the
/// records of what is left of the input, trimmed, comes to, whatever the
/// chunk size.
pub proof fn lemma_process_canon<S: CommandSink>(v: StreamView, sink: S::V)
    requires
        v.sound(),
        v.poised(),
    ensures
        spec_process::<S>(v, sink).0 == fed::<S>(trimmed(v.rest()), sink, false).res,
        spec_process::<S>(v, sink).2 == fed::<S>(trimmed(v.rest()), sink, false).sink,
        spec_process::<S>(v, sink).0 is Ok ==> {
            &&& spec_process::<S>(v, sink).1.rest() == fed::<S>(
                trimmed(v.rest()),
                sink,
                false,
            ).left
            &&& spec_process::<S>(v, sink).1.sound()
            &&& spec_process::<S>(v, sink).1.poised()
            &&& !fed::<S>(trimmed(v.rest()), sink, false).stopped ==> spec_process::<S>(
                v,
                sink,
            ).1.done()
        },
{
    if v.window.len() == 0 {
        lemma_refill_trim_rest(v);
        let after = v.refill(true).1;
        if v.refill(true).0->Ok_0 != 0 {
            lemma_feed_canon::<S>(after, sink, false);
        }
    } else {
        assert(v.rest()[0] == v.window[0]);
        lemma_trimmed_same(v.rest());
        lemma_feed_canon::<S>(v, sink, false);
    }
}

/// Loading a header from a sound stream comes to what loading it from what
/// is left of the input comes to, whatever the chunk size.
pub proof fn lemma_load_header_canon(p: ParserView)
    requires
        p.stream.sound(),
    ensures
        p.load_header().0 == loaded(p.stream.rest(), p.header).res,
        p.load_header().1.header == loaded(p.stream.rest(), p.header).header,
        p.load_header().0 is Ok ==> {
            &&& p.load_header().1.stream.rest() == loaded(p.stream.rest(), p.header).left
            &&& p.load_header().1.stream.sound()
            &&& p.load_header().1.stream.poised()
        },
    decreases p.stream.fuel(),
{
    let run = p.stream.run_parser::<VcdHeaderParser, HeaderStep>((), p.header);
    lemma_run_parser_canon::<VcdHeaderParser, HeaderStep>(p.stream, (), p.header);
    crate::stream::lemma_run_parser_fuel::<VcdHeaderParser, HeaderStep>(p.stream, (), p.header);
    lemma_header_directive_closed(p.header.sealed, p.stream.rest());
    if let Outcome::Match { len, value } = spec_header_directive(p.header.sealed, p.stream.rest()) {
        if len < p.stream.rest().len() {
            assert(p.stream.rest().skip(len as int)[0] == p.stream.rest()[len as int]);
        }
        lemma_poised(run.1);
        if !(value is EndDefinitions) {
            lemma_load_header_canon(ParserView { stream: run.1, header: run.2.1 });
        }
    }
}

} // verus!
