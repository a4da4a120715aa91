//! The layer that prints events.

use std::marker::PhantomData;
use vstd::prelude::*;

use crate::context::Context;
use crate::metadata::Level;
use crate::registry::Registry;
use crate::span::Event;

verus! {

/// A type that can create writers.
///
/// `MakeWriter` is used by [`ConsoleLayer`] to print formatted text representations of events.
///
/// This trait is already implemented for function pointers and immutably-borrowing closures that
/// return a writer.
pub trait MakeWriter {
    /// The writer that `make_writer` returns.
    type Writer;

    /// Whether a writer can be made.
    spec fn can_make(&self) -> bool;

    /// Whether `writer` can be the one that is made.
    spec fn makes(&self, writer: Self::Writer) -> bool;

    /// Returns a writer.
    ///
    /// [`ConsoleLayer`] will call this method each time an event is printed. Ensure any state that
    /// must be saved across writes is not lost when the writer is dropped.
    fn make_writer(&self) -> (writer: Self::Writer)
        requires
            self.can_make(),
        ensures
            self.makes(writer),
    ;
}

impl<F, W> MakeWriter for F where F: Fn() -> W {
    type Writer = W;

    open spec fn can_make(&self) -> bool {
        call_requires(*self, ())
    }

    open spec fn makes(&self, writer: W) -> bool {
        call_ensures(*self, (), writer)
    }

    fn make_writer(&self) -> (writer: W) {
        (self)()
    }
}

/// A layer over the subscriber `S` that prints the events that it is interested in.
///
/// `I` tells whether it is interested in an event. `E` formats an event: it is given the context,
/// the text to add to and the event, and returns the text and whether it could be formatted. `N`
/// formats fields, and `W` makes the writers that the text goes to.
#[derive(Debug)]
pub struct ConsoleLayer<I, N, E, W, S = Registry> {
    is_interested: I,
    inner: PhantomData<S>,
    make_writer: W,
    fmt_fields: N,
    fmt_event: E,
}

/// Builds a [`ConsoleLayer`].
#[derive(Debug)]
pub struct ConsoleLayerBuilder<I, N, E, W, S = Registry> {
    fmt_fields: N,
    fmt_event: E,
    make_writer: W,
    is_interested: I,
    inner: PhantomData<S>,
}

/// The text of an event and the writer that it goes to.
#[derive(Debug)]
pub struct Output<T> {
    /// The writer.
    pub writer: T,
    /// The text.
    pub text: String,
}

/// Is interested in every event.
pub fn always(_event: &Event) -> (interested: bool)
    ensures
        interested,
{
    true
}

/// Is interested in the events that are at least as verbose as a warning.
pub fn warn_or_more_verbose(event: &Event) -> (interested: bool)
    ensures
        interested == (event.metadata.level.verbosity() >= Level::Warn.verbosity()),
{
    event.metadata.level.is_at_least(Level::Warn)
}

/// Is interested in the events that are information.
pub fn info_only(event: &Event) -> (interested: bool)
    ensures
        interested == (event.metadata.level == Level::Info),
{
    event.metadata.level == Level::Info
}

impl<I, N, E, W, S> ConsoleLayerBuilder<I, N, E, W, S> {
    /// What tells whether the layer is interested in an event.
    pub closed spec fn interest(&self) -> I {
        self.is_interested
    }

    /// What formats fields.
    pub closed spec fn field_formatter(&self) -> N {
        self.fmt_fields
    }

    /// What formats an event.
    pub closed spec fn event_formatter(&self) -> E {
        self.fmt_event
    }

    /// What makes writers.
    pub closed spec fn writer_maker(&self) -> W {
        self.make_writer
    }

    /// A builder with the given parts.
    pub fn new(is_interested: I, fmt_fields: N, fmt_event: E, make_writer: W) -> (made: Self)
        ensures
            made.interest() == is_interested,
            made.field_formatter() == fmt_fields,
            made.event_formatter() == fmt_event,
            made.writer_maker() == make_writer,
    {
        ConsoleLayerBuilder { fmt_fields, fmt_event, make_writer, is_interested, inner: PhantomData }
    }

    /// Sets what tells whether the layer is interested in an event.
    pub fn with_interest<F: Fn(&Event) -> bool>(self, f: F) -> (made: ConsoleLayerBuilder<
        F,
        N,
        E,
        W,
        S,
    >)
        ensures
            made.interest() == f,
            made.field_formatter() == self.field_formatter(),
            made.event_formatter() == self.event_formatter(),
            made.writer_maker() == self.writer_maker(),
    {
        ConsoleLayerBuilder {
            fmt_fields: self.fmt_fields,
            fmt_event: self.fmt_event,
            make_writer: self.make_writer,
            is_interested: f,
            inner: self.inner,
        }
    }

    /// Sets what makes writers.
    pub fn with_writer<W2: MakeWriter>(self, make_writer: W2) -> (made: ConsoleLayerBuilder<
        I,
        N,
        E,
        W2,
        S,
    >)
        ensures
            made.interest() == self.interest(),
            made.field_formatter() == self.field_formatter(),
            made.event_formatter() == self.event_formatter(),
            made.writer_maker() == make_writer,
    {
        ConsoleLayerBuilder {
            fmt_fields: self.fmt_fields,
            fmt_event: self.fmt_event,
            is_interested: self.is_interested,
            inner: self.inner,
            make_writer,
        }
    }

    /// Builds the layer.
    pub fn build(self) -> (made: ConsoleLayer<I, N, E, W, S>)
        ensures
            made.interest() == self.interest(),
            made.field_formatter() == self.field_formatter(),
            made.event_formatter() == self.event_formatter(),
            made.writer_maker() == self.writer_maker(),
    {
        ConsoleLayer {
            is_interested: self.is_interested,
            inner: self.inner,
            make_writer: self.make_writer,
            fmt_fields: self.fmt_fields,
            fmt_event: self.fmt_event,
        }
    }
}

impl<N, E, W> ConsoleLayer<(), N, E, W> {
    /// A builder of layers with the given formatters and writers that are interested in every event.
    pub fn builder(fmt_fields: N, fmt_event: E, make_writer: W) -> (made: ConsoleLayerBuilder<
        impl Fn(&Event) -> bool,
        N,
        E,
        W,
    >)
        ensures
            forall|event: &Event| #[trigger] call_requires(made.interest(), (event,)),
            forall|event: &Event, interested: bool| #[trigger]
                call_ensures(made.interest(), (event,), interested) ==> interested,
            made.field_formatter() == fmt_fields,
            made.event_formatter() == fmt_event,
            made.writer_maker() == make_writer,
    {
        ConsoleLayerBuilder::new(always, fmt_fields, fmt_event, make_writer)
    }
}

impl<I, N, E, W, S> ConsoleLayer<I, N, E, W, S> {
    /// What tells whether the layer is interested in an event.
    pub closed spec fn interest(&self) -> I {
        self.is_interested
    }

    /// What formats fields.
    pub closed spec fn field_formatter(&self) -> N {
        self.fmt_fields
    }

    /// What formats an event.
    pub closed spec fn event_formatter(&self) -> E {
        self.fmt_event
    }

    /// What makes writers.
    pub closed spec fn writer_maker(&self) -> W {
        self.make_writer
    }

    /// The context in which this layer formats events.
    pub fn ctx<'a>(&'a self, registry: &'a Registry) -> (context: Context<'a, N>)
        requires
            registry.wf(),
        ensures
            context.wf(),
            context.spans() == registry.spans(),
            context.field_formatter() == self.field_formatter(),
    {
        Context::new(registry, &self.fmt_fields)
    }
}

impl<I, N, E, W, S> ConsoleLayer<I, N, E, W, S> where
    I: Fn(&Event) -> bool,
    E: Fn(&Context<'_, N>, String, &Event) -> (String, bool),
    W: MakeWriter,
 {
    /// Whether `event`, formatted in the context `ctx` at the end of `before`, can give `after`.
    pub open spec fn formats(
        &self,
        ctx: &Context<'_, N>,
        event: &Event,
        before: Seq<char>,
        after: (String, bool),
    ) -> bool {
        exists|text: String|
            text@ == before && #[trigger] call_ensures(
                self.event_formatter(),
                (ctx, text, event),
                after,
            )
    }

    /// Formats `event` in `buf`, if the layer is interested in it, and returns what is to be
    /// printed, which is nothing if the event could not be formatted. Then `buf` is empty again.
    ///
    /// A writer is made only for an event that could be formatted.
    pub fn on_event(&self, ctx: &Context<'_, N>, event: &Event, buf: &mut String) -> (output: Option<
        Output<W::Writer>,
    >)
        requires
            call_requires(self.interest(), (event,)),
            call_ensures(self.interest(), (event,), true) ==> forall|text: String|
                text@ == old(buf)@ ==> #[trigger] call_requires(
                    self.event_formatter(),
                    (ctx, text, event),
                ),
            call_ensures(self.interest(), (event,), true) ==> forall|after: (String, bool)| #[trigger]
                self.formats(ctx, event, old(buf)@, after) && after.1
                    ==> self.writer_maker().can_make(),
        ensures
            old(buf)@.len() == 0 ==> final(buf)@.len() == 0,
            ({
                ||| {
                    &&& call_ensures(self.interest(), (event,), false)
                    &&& output is None
                    &&& final(buf)@ == old(buf)@
                }
                ||| {
                    &&& call_ensures(self.interest(), (event,), true)
                    &&& final(buf)@ == Seq::<char>::empty()
                    &&& exists|after: (String, bool)| #[trigger]
                        self.formats(ctx, event, old(buf)@, after) && match output {
                            Some(output) => after.1 && output.text == after.0
                                && self.writer_maker().makes(output.writer),
                            None => !after.1,
                        }
                }
            }),
            output is None && call_ensures(self.interest(), (event,), false) || exists|
                text: String,
                after: (String, bool),
            |
                {
                    &&& text@ == old(buf)@
                    &&& #[trigger] call_ensures(self.event_formatter(), (ctx, text, event), after)
                    &&& after.1 ==> output is Some && output->0.text == after.0
                    &&& !after.1 ==> output is None
                },
    {
        if !(self.is_interested)(event) {
            return None;
        }
        let mut text = String::new();
        std::mem::swap(&mut text, buf);
        let ghost given = text;
        assert(call_requires(self.event_formatter(), (ctx, given, event)));
        let (text, formatted) = (self.fmt_event)(ctx, text, event);
        assert(call_ensures(self.event_formatter(), (ctx, given, event), (text, formatted)));
        assert(self.formats(ctx, event, given@, (text, formatted)));
        if formatted {
            let writer = self.make_writer.make_writer();
            Some(Output { writer, text })
        } else {
            None
        }
    }
}

/// Formatting an event gives what the formatter gives, text and outcome, whatever the event is.
pub proof fn law_formatting_is_a_call_of_the_formatter<I, N, E, W, S>(
    layer: ConsoleLayer<I, N, E, W, S>,
    ctx: &Context<'_, N>,
    event: &Event,
    before: Seq<char>,
    after: (String, bool),
) where
    I: Fn(&Event) -> bool,
    E: Fn(&Context<'_, N>, String, &Event) -> (String, bool),
    W: MakeWriter,

    ensures
        layer.formats(ctx, event, before, after) <==> exists|text: String|
            text@ == before && #[trigger] call_ensures(
                layer.event_formatter(),
                (ctx, text, event),
                after,
            ),
{
}

/// A function makes a writer whenever it can be called, and makes exactly the writers that it
/// returns.
pub proof fn law_function_makes_what_it_returns<F: Fn() -> W, W>(f: F, writer: W)
    ensures
        MakeWriter::can_make(&f) <==> call_requires(f, ()),
        MakeWriter::makes(&f, writer) <==> call_ensures(f, (), writer),
{
}

} // verus!
