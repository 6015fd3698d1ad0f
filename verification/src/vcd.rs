//! The parser of a whole waveform: first the header, then the records of the
//! body, each handed to a sink.

pub use crate::command::{OwnedCommand, OwnedValue, VcdChange, VcdCommand, VcdValue};
use crate::canon::{fed, lemma_load_header_canon, lemma_process_canon, loaded};
use crate::command::CommandView;
use crate::grammar::{lemma_skip_twice, shifted, spec_vcd_command, vcd_command};
pub use crate::header::{VcdHeader, VcdHeaderParser};
use crate::extent::{lemma_header_directive_within, lemma_vcd_command_within};
use crate::header::HeaderParserView;
use crate::scan::{yields, GrammarError, Outcome};
use crate::stability::{lemma_header_directive_stable, lemma_vcd_command_stable};
pub use crate::stream::VcdError;
use crate::stream::{trimmed, StreamView, VcdStreamParser, WindowParser};
use crate::utils::ByteSource;
use vstd::prelude::*;

verus! {

/// The step of loading a header: one directive is parsed and taken into the
/// header parser.
pub struct HeaderStep;

impl View for HeaderStep {
    type V = ();

    open spec fn view(&self) -> () {
        ()
    }
}

impl WindowParser<VcdHeaderParser> for HeaderStep {
    type Output = bool;

    open spec fn ready(&self, context: &VcdHeaderParser) -> bool {
        true
    }

    open spec fn answer(state: (), context: HeaderParserView, window: Seq<u8>) -> Outcome<bool> {
        context.step(window).0
    }

    open spec fn next(state: (), context: HeaderParserView, window: Seq<u8>) -> (
        (),
        HeaderParserView,
    ) {
        ((), context.step(window).1)
    }

    proof fn lemma_takes_bytes(state: (), context: HeaderParserView, window: Seq<u8>) {
        lemma_header_directive_within(context.sealed, window);
    }

    proof fn lemma_stable(state: (), context: HeaderParserView, window: Seq<u8>, ext: Seq<u8>) {
        lemma_header_directive_stable(context.sealed, window, ext);
    }

    fn parse(&mut self, context: &mut VcdHeaderParser, window: &[u8]) -> (res: Result<
        (usize, bool),
        GrammarError,
    >) {
        let (rest, done) = context.next_header_command(window)?;
        Ok((rest.len(), done))
    }
}

/// What takes the records of a body, one by one.
pub trait CommandSink: View {
    /// What the sink needs to hold before it takes a record.
    spec fn ready(&self) -> bool;

    /// Whether the sink in state `state` asks to stop after `command`.
    spec fn stops(state: Self::V, command: CommandView) -> bool;

    /// The state of the sink after it took `command` in state `state`.
    spec fn absorb(state: Self::V, command: CommandView) -> Self::V;

    /// Takes one record and answers whether the parser is to stop.
    fn command(&mut self, command: VcdCommand<'_>) -> (stop: bool)
        requires
            old(self).ready(),
        ensures
            final(self).ready(),
            stop == Self::stops(old(self)@, command@),
            final(self)@ == Self::absorb(old(self)@, command@),
    ;
}

/// The step of processing a body: one record is parsed and handed to the
/// sink. The step remembers whether the sink has asked to stop.
pub struct CommandStep {
    pub should_stop: bool,
}

impl View for CommandStep {
    type V = bool;

    open spec fn view(&self) -> bool {
        self.should_stop
    }
}

impl<S: CommandSink> WindowParser<S> for CommandStep {
    type Output = ();

    open spec fn ready(&self, context: &S) -> bool {
        context.ready()
    }

    open spec fn answer(state: bool, context: S::V, window: Seq<u8>) -> Outcome<()> {
        match spec_vcd_command(window) {
            Outcome::Match { len, value: _ } => Outcome::Match { len, value: () },
            Outcome::Incomplete => Outcome::Incomplete,
            Outcome::Failure => Outcome::Failure,
        }
    }

    open spec fn next(state: bool, context: S::V, window: Seq<u8>) -> (bool, S::V) {
        match spec_vcd_command(window) {
            Outcome::Match { len: _, value } => (
                state || S::stops(context, value),
                S::absorb(context, value),
            ),
            _ => (state, context),
        }
    }

    proof fn lemma_takes_bytes(state: bool, context: S::V, window: Seq<u8>) {
        lemma_vcd_command_within(window);
    }

    proof fn lemma_stable(state: bool, context: S::V, window: Seq<u8>, ext: Seq<u8>) {
        lemma_vcd_command_stable(window, ext);
    }

    fn parse(&mut self, context: &mut S, window: &[u8]) -> (res: Result<(usize, ()), GrammarError>) {
        let (rest, command) = vcd_command(window)?;
        if context.command(command) {
            self.should_stop = true;
        }
        Ok((rest.len(), ()))
    }
}

/// A sink that counts the records it takes and never asks to stop.
pub struct CommandCounter {
    pub count: u64,
}

impl View for CommandCounter {
    type V = u64;

    open spec fn view(&self) -> u64 {
        self.count
    }
}

impl CommandSink for CommandCounter {
    open spec fn ready(&self) -> bool {
        true
    }

    open spec fn stops(state: u64, command: CommandView) -> bool {
        false
    }

    /// One more; the count stays at the largest number once it is there.
    open spec fn absorb(state: u64, command: CommandView) -> u64 {
        if state < u64::MAX {
            (state + 1) as u64
        } else {
            state
        }
    }

    fn command(&mut self, command: VcdCommand<'_>) -> (stop: bool) {
        if self.count < u64::MAX {
            self.count += 1;
        }
        false
    }
}

/// A sink that keeps the record it is handed, with bytes of its own, and
/// asks to stop at once: it takes the records of a body one by one.
pub struct CommandSlot {
    pub command: Option<OwnedCommand>,
}

impl View for CommandSlot {
    type V = Option<CommandView>;

    open spec fn view(&self) -> Option<CommandView> {
        match self.command {
            Some(command) => Some(command@),
            None => None,
        }
    }
}

impl CommandSink for CommandSlot {
    open spec fn ready(&self) -> bool {
        true
    }

    open spec fn stops(state: Option<CommandView>, command: CommandView) -> bool {
        true
    }

    open spec fn absorb(state: Option<CommandView>, command: CommandView) -> Option<CommandView> {
        Some(command)
    }

    fn command(&mut self, command: VcdCommand<'_>) -> (stop: bool) {
        self.command = Some(command.owned());
        true
    }
}

/// A parser of waveforms as a mathematical value.
pub struct ParserView {
    pub stream: StreamView,
    pub header: HeaderParserView,
}

impl ParserView {
    /// A parser that has read nothing of the waveform `source`.
    pub open spec fn opened(source: Seq<u8>, chunk: nat) -> ParserView {
        ParserView {
            stream: StreamView::opened(source, chunk),
            header: HeaderParserView { variables: Seq::empty(), sealed: false, scope: Seq::empty() },
        }
    }

    /// What loading the header answers, and the parser after it: header
    /// directives are parsed from the stream until one seals the header.
    pub open spec fn load_header(self) -> (Result<(), VcdError>, ParserView)
        decreases self.stream.fuel(),
    {
        let (res, stream, state) = self.stream.run_parser::<VcdHeaderParser, HeaderStep>(
            (),
            self.header,
        );
        let after = ParserView { stream, header: state.1 };
        match res {
            Ok(done) => if done {
                (Ok(()), after)
            } else {
                proof {
                    crate::stream::lemma_run_parser_fuel::<VcdHeaderParser, HeaderStep>(
                        self.stream,
                        (),
                        self.header,
                    );
                }
                after.load_header()
            },
            Err(e) => (Err(e), after),
        }
    }
}

/// What handing the records of `stream` to a sink in state `sink` answers,
/// then the stream and the sink after it. It ends when the sink has asked to
/// stop or nothing is left.
pub open spec fn spec_feed<S: CommandSink>(stream: StreamView, sink: S::V, stopped: bool) -> (
    Result<(), VcdError>,
    StreamView,
    S::V,
)
    decreases stream.fuel(),
{
    if stopped || stream.done() {
        (Ok(()), stream, sink)
    } else {
        let (res, after, state) = stream.run_parser::<S, CommandStep>(stopped, sink);
        match res {
            Ok(_) => {
                proof {
                    crate::stream::lemma_run_parser_fuel::<S, CommandStep>(stream, stopped, sink);
                }
                spec_feed::<S>(after, state.1, state.0)
            },
            Err(e) => (Err(e), after, state.1),
        }
    }
}

/// What processing the records of `stream` answers, then the stream and the
/// sink after it. An empty window is refilled and trimmed first; if nothing
/// comes, there is nothing to process.
pub open spec fn spec_process<S: CommandSink>(stream: StreamView, sink: S::V) -> (
    Result<(), VcdError>,
    StreamView,
    S::V,
) {
    if stream.window.len() == 0 {
        match stream.refill(true) {
            (Ok(n), after) => if n == 0 {
                (Ok(()), after, sink)
            } else {
                spec_feed::<S>(after, sink, false)
            },
            (Err(e), after) => (Err(e), after, sink),
        }
    } else {
        spec_feed::<S>(stream, sink, false)
    }
}

/// Parses a waveform: first its header, then the records of its body.
pub struct VcdParser {
    buffer: VcdStreamParser,
    header_parser: VcdHeaderParser,
}

impl View for VcdParser {
    type V = ParserView;

    closed spec fn view(&self) -> ParserView {
        ParserView { stream: self.buffer@, header: self.header_parser@ }
    }
}

impl VcdParser {
    /// The stream is well formed.
    pub closed spec fn wf(&self) -> bool {
        self.buffer.wf()
    }

    /// A parser of the waveform that `inner` gives, reading `chunk_size` bytes at a time.
    pub fn with_chunk_size(chunk_size: usize, inner: ByteSource) -> (parser: VcdParser)
        ensures
            parser.wf(),
            parser@ == ParserView::opened(inner@, chunk_size as nat),
    {
        VcdParser {
            buffer: VcdStreamParser::with_chunk_size(chunk_size, inner),
            header_parser: VcdHeaderParser::new(),
        }
    }

    /// Parses header directives until one seals the header.
    pub fn load_header(&mut self) -> (res: Result<&VcdHeader, VcdError>)
        requires
            old(self).wf(),
        ensures
            final(self).wf(),
            final(self)@ == old(self)@.load_header().1,
            match old(self)@.load_header().0 {
                Ok(_) => res matches Ok(header) && header@ == final(self)@.header.variables,
                Err(e) => res == Err::<&VcdHeader, VcdError>(e),
            },
            old(self)@.stream.sound() ==> {
                &&& res is Ok <==> loaded(old(self)@.stream.rest(), old(self)@.header).res is Ok
                &&& res matches Err(e) ==> loaded(
                    old(self)@.stream.rest(),
                    old(self)@.header,
                ).res == Err::<(), VcdError>(e)
                &&& final(self)@.header == loaded(
                    old(self)@.stream.rest(),
                    old(self)@.header,
                ).header
                &&& res is Ok ==> final(self)@.stream.rest() == loaded(
                    old(self)@.stream.rest(),
                    old(self)@.header,
                ).left && final(self)@.stream.sound() && final(self)@.stream.poised()
            },
    {
        proof {
            if self@.stream.sound() {
                lemma_load_header_canon(self@);
            }
        }
        loop
            invariant
                self.wf(),
                self@.load_header() == old(self)@.load_header(),
            decreases self@.stream.fuel(),
        {
            proof {
                crate::stream::lemma_run_parser_fuel::<VcdHeaderParser, HeaderStep>(
                    self@.stream,
                    (),
                    self@.header,
                );
            }
            proof {
                if old(self)@.stream.sound() {
                    lemma_load_header_canon(old(self)@);
                }
            }
            let mut step = HeaderStep;
            let done = self.buffer.run_parser(&mut step, &mut self.header_parser)?;
            if done {
                return Ok(self.header_parser.collected());
            }
        }
    }

    /// The header, once it is sealed.
    pub fn header(&self) -> (header: Option<&VcdHeader>)
        ensures
            header is Some <==> self@.header.sealed,
            header matches Some(h) ==> h@ == self@.header.variables,
    {
        self.header_parser.header()
    }

    /// Whether nothing is left: the source is at its end and the window is empty.
    pub fn done(&self) -> (done: bool)
        requires
            self.wf(),
        ensures
            done == self@.stream.done(),
    {
        self.buffer.done()
    }

    /// Parses the records of the body and hands each to `sink`, until the
    /// sink asks to stop or nothing is left.
    pub fn process_vcd_commands<S: CommandSink>(&mut self, sink: &mut S) -> (res: Result<
        (),
        VcdError,
    >)
        requires
            old(self).wf(),
            old(sink).ready(),
        ensures
            final(self).wf(),
            final(sink).ready(),
            res == spec_process::<S>(old(self)@.stream, old(sink)@).0,
            final(self)@.stream == spec_process::<S>(old(self)@.stream, old(sink)@).1,
            final(self)@.header == old(self)@.header,
            final(sink)@ == spec_process::<S>(old(self)@.stream, old(sink)@).2,
            old(self)@.stream.sound() && old(self)@.stream.poised() ==> {
                let end = fed::<S>(trimmed(old(self)@.stream.rest()), old(sink)@, false);
                &&& res == end.res
                &&& final(sink)@ == end.sink
                &&& res is Ok ==> final(self)@.stream.rest() == end.left
                    && final(self)@.stream.sound() && final(self)@.stream.poised() && (!end.stopped
                    ==> final(self)@.stream.done())
            },
    {
        proof {
            if self@.stream.sound() && self@.stream.poised() {
                lemma_process_canon::<S>(self@.stream, sink@);
            }
        }
        if self.buffer.data().len() == 0 {
            let n = self.buffer.refill(true)?;
            if n == 0 {
                return Ok(());
            }
        }
        let mut step = CommandStep { should_stop: false };
        while !step.should_stop && !self.buffer.done()
            invariant
                self.wf(),
                sink.ready(),
                self@.header == old(self)@.header,
                spec_feed::<S>(self@.stream, sink@, step@) == spec_process::<S>(
                    old(self)@.stream,
                    old(sink)@,
                ),
            decreases self@.stream.fuel(),
        {
            proof {
                crate::stream::lemma_run_parser_fuel::<S, CommandStep>(self@.stream, step@, sink@);
                if old(self)@.stream.sound() && old(self)@.stream.poised() {
                    lemma_process_canon::<S>(old(self)@.stream, old(sink)@);
                }
            }
            self.buffer.run_parser(&mut step, sink)?;
        }
        proof {
            if old(self)@.stream.sound() && old(self)@.stream.poised() {
                lemma_process_canon::<S>(old(self)@.stream, old(sink)@);
            }
        }
        Ok(())
    }
}

/// What handing the records of `s` to a sink in state `sink` answers, and the
/// sink after it: records are parsed from `s` until the sink asks to stop or
/// no byte is left.
pub open spec fn spec_process_vcd_commands<S: CommandSink>(s: Seq<u8>, sink: S::V) -> (
    Outcome<()>,
    S::V,
)
    decreases s.len(),
{
    match spec_vcd_command(s) {
        Outcome::Match { len, value } => {
            let next = S::absorb(sink, value);
            if S::stops(sink, value) || len >= s.len() {
                (Outcome::Match { len, value: () }, next)
            } else {
                proof {
                    lemma_vcd_command_within(s);
                }
                let (rest, last) = spec_process_vcd_commands::<S>(s.skip(len as int), next);
                (shifted(rest, len), last)
            }
        },
        Outcome::Incomplete => (Outcome::Incomplete, sink),
        Outcome::Failure => (Outcome::Failure, sink),
    }
}

/// Parses the records of `input`, which is held in memory as a whole, and
/// hands each to `sink`, until the sink asks to stop or no byte is left.
pub fn process_vcd_commands<'a, S: CommandSink>(input: &'a [u8], sink: &mut S) -> (res: Result<
    (&'a [u8], ()),
    GrammarError,
>)
    requires
        old(sink).ready(),
    ensures
        final(sink).ready(),
        yields(res, input@, spec_process_vcd_commands::<S>(input@, old(sink)@).0),
        final(sink)@ == spec_process_vcd_commands::<S>(input@, old(sink)@).1,
{
    let mut window = input;
    let ghost mut passed: nat = 0;
    loop
        invariant
            sink.ready(),
            passed <= input@.len(),
            window@ == input@.skip(passed as int),
            spec_process_vcd_commands::<S>(input@, old(sink)@).0 == shifted(
                spec_process_vcd_commands::<S>(window@, sink@).0,
                passed,
            ),
            spec_process_vcd_commands::<S>(input@, old(sink)@).1 == spec_process_vcd_commands::<S>(
                window@,
                sink@,
            ).1,
        decreases window@.len(),
    {
        let (remaining, command) = vcd_command(window)?;
        let ghost len = (window@.len() - remaining@.len()) as nat;
        proof {
            lemma_vcd_command_within(window@);
            lemma_skip_twice(input@, passed, len);
        }
        let stop = sink.command(command);
        if stop || remaining.len() == 0 {
            return Ok((remaining, ()));
        }
        proof {
            passed = passed + len;
        }
        window = remaining;
    }
}

} // verus!
