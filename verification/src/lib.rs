//! A registry of tracing spans: the spans that are open, the events recorded in them, the spans
//! that are entered, and a layer that prints events.

pub mod console;
pub mod context;
pub mod current;
pub mod id;
pub mod lookup;
pub mod metadata;
pub mod registry;
mod sealed;
mod slab;
pub mod span;
pub mod stack;
pub mod trail;
pub mod values;

pub use console::{ConsoleLayer, ConsoleLayerBuilder, MakeWriter, Output};
pub use context::Context;
pub use current::CurrentSpan;
pub use id::{id_to_idx, idx_to_id, Id};
pub use lookup::{Extensions, LookupSpan, SpanData, SpanRef};
pub use metadata::{Interest, Level, Metadata};
pub use registry::Registry;
pub use span::{Attributes, BigEvent, BigSpan, Event};
pub use stack::SpanStack;
pub use values::{FieldValues, RegistryVisitor, Value};
