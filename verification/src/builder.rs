//! Builder and preset traits shared by the library's types.

use vstd::prelude::*;

verus! {

/// A type constructible through a builder.
pub trait Buildable: Sized {
    type Builder: ConsumingBuilder;

    /// A fresh builder for this type.
    fn builder() -> Self::Builder;
}

/// A builder consumed by its final `build` step.
pub trait ConsumingBuilder: Sized {
    type Built;

    /// The value this builder stands for.
    spec fn builds(self) -> Self::Built;

    /// Consume the builder and yield the built value.
    fn build(self) -> (r: Self::Built)
        ensures
            r == self.builds(),
    ;
}

/// A builder whose product can be lifted straight into a wrapping type.
pub trait BuildInto<T>: Sized {
    /// The wrapped value this builder stands for.
    spec fn builds_into(self) -> T;

    /// Consume the builder and yield the built value, wrapped.
    fn build_into(self) -> (r: T)
        ensures
            r == self.builds_into(),
    ;
}

/// A type with a canonical ready-to-use value.
pub trait Preset: Sized {
    /// The canonical value.
    spec fn preset_spec() -> Self;

    /// Yield the canonical value.
    fn preset() -> (r: Self)
        ensures
            r == Self::preset_spec(),
    ;
}

} // verus!
