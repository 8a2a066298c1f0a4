//! deku's traits for particular instantiations of a generic struct.
//!
//! `#[derive(DekuRead)]` on `struct Foo<T>` produces `impl<T> DekuReader for
//! Foo<T>`. Where `T` is the marker of a state that is more than wanted: only
//! `Foo<Unvalidated>` should be readable, while both `Foo<Unvalidated>` and
//! `Foo<Validated>` may need writing. The macros of this crate let the impls be
//! requested one instantiation at a time.
//!
//! [`entry`] holds the macros as functions on tokens, [`expand`] what they
//! generate, and [`laws`] what holds of them as a whole. [`generated`] says what
//! the generated code is, token by token, [`rewritten`] what becomes of the deku
//! attributes and [`captured`] what becomes of the struct; [`accepted`] and
//! [`refused`] say which input is accepted and what is said of the rest, and
//! [`filling`] what templates come to.

pub mod accepted;
pub mod attrs;
pub mod bind;
pub mod captured;
pub mod code;
pub mod emit;
pub mod entry;
pub mod error;
pub mod expand;
pub mod filling;
pub mod frame;
pub mod generated;
pub mod item;
pub mod laws;
pub mod mirror;
pub mod outcome;
pub mod refused;
pub mod rewritten;
pub mod setting;
pub mod stream;
pub mod syntax;
pub mod template;
pub mod text;

pub use entry::{
    __deku_generic_impl, deku_generic, impl_deku_read, impl_deku_read_write, impl_deku_write,
};
pub use frame::{round_trip, Frame, Unvalidated, Validated, WithCtx};
