use span_registry::console::{always, info_only, warn_or_more_verbose};
use span_registry::{
    ConsoleLayer, ConsoleLayerBuilder, Context, Event, Level, MakeWriter, Metadata, Registry,
};

const LEVELS: [Level; 5] = [Level::Error, Level::Warn, Level::Info, Level::Debug, Level::Trace];

fn event(level: Level) -> Event {
    Event {
        metadata: Metadata {
            name: "something".to_string(),
            level,
            fields: Vec::new(),
        },
        parent: None,
        contextual: true,
        fields: Vec::new(),
    }
}

fn format_name(_ctx: &Context<'_, ()>, mut text: String, event: &Event) -> (String, bool) {
    text.push_str(&event.metadata.name);
    (text, true)
}

fn format_nothing(_ctx: &Context<'_, ()>, mut text: String, _event: &Event) -> (String, bool) {
    text.push_str("half of");
    (text, false)
}

fn stdout() -> &'static str {
    "stdout"
}

fn stderr() -> &'static str {
    "stderr"
}

#[test]
fn levels_are_ordered_by_verbosity() {
    for (i, level) in LEVELS.iter().enumerate() {
        for (j, other) in LEVELS.iter().enumerate() {
            assert_eq!(level.is_at_least(*other), i >= j);
        }
    }
}

#[test]
fn interests_follow_the_level() {
    let interested = |f: fn(&Event) -> bool| LEVELS.map(|level| f(&event(level)));
    assert_eq!(interested(always), [true, true, true, true, true]);
    assert_eq!(interested(warn_or_more_verbose), [false, true, true, true, true]);
    assert_eq!(interested(info_only), [false, false, true, false, false]);
}

#[test]
fn closures_make_writers() {
    assert_eq!(stdout.make_writer(), "stdout");
    let name = "file".to_string();
    assert_eq!((|| name.len()).make_writer(), 4);
}

#[test]
fn interesting_event_is_printed() {
    let registry = Registry::default();
    let layer = ConsoleLayer::builder((), format_name, stdout).build();
    let context = layer.ctx(&registry);
    let mut buf = String::new();
    let output = layer.on_event(&context, &event(Level::Trace), &mut buf).unwrap();
    assert_eq!(output.text, "something");
    assert_eq!(output.writer, "stdout");
    assert_eq!(buf, "");
}

#[test]
fn event_of_no_interest_is_not_formatted() {
    let registry = Registry::default();
    let layer = ConsoleLayer::builder((), format_name, stdout).with_interest(info_only).build();
    let context = layer.ctx(&registry);
    let mut buf = "kept".to_string();
    assert!(layer.on_event(&context, &event(Level::Warn), &mut buf).is_none());
    assert_eq!(buf, "kept");
    let output = layer.on_event(&context, &event(Level::Info), &mut buf).unwrap();
    assert_eq!(output.text, "keptsomething");
    assert_eq!(buf, "");
}

#[test]
fn event_that_cannot_be_formatted_is_not_printed() {
    let registry = Registry::default();
    let layer = ConsoleLayer::builder((), format_nothing, stdout).build();
    let context = layer.ctx(&registry);
    let mut buf = String::new();
    assert!(layer.on_event(&context, &event(Level::Info), &mut buf).is_none());
    assert_eq!(buf, "");
}

#[test]
fn no_writer_is_made_for_what_is_not_printed() {
    let registry = Registry::default();
    let layer = ConsoleLayer::builder((), format_nothing, stdout)
        .with_interest(info_only)
        .with_writer(|| -> &'static str { panic!("a writer was made") })
        .build();
    let context = layer.ctx(&registry);
    let mut buf = String::new();
    assert!(layer.on_event(&context, &event(Level::Info), &mut buf).is_none());
    assert_eq!(buf, "");
    assert!(layer.on_event(&context, &event(Level::Warn), &mut buf).is_none());
}

#[test]
fn builder_replaces_the_writer() {
    let registry = Registry::default();
    let builder: ConsoleLayerBuilder<_, _, _, _, Registry> =
        ConsoleLayerBuilder::new(always, (), format_name, stdout);
    let layer = builder.with_interest(warn_or_more_verbose).with_writer(stderr).build();
    let context = layer.ctx(&registry);
    let mut buf = String::new();
    assert!(layer.on_event(&context, &event(Level::Error), &mut buf).is_none());
    let output = layer.on_event(&context, &event(Level::Warn), &mut buf).unwrap();
    assert_eq!(output.writer, "stderr");
    assert_eq!(output.text, "something");
}
