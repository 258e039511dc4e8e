//! Typed access to the fields of a fixed binary layout held in a byte buffer.
//!
//! A field is a marker type that fixes an offset, a size, a byte order and a
//! logical value type. A [`FieldView`](view::FieldView) binds one such marker
//! to a storage and reads or writes the field's bytes in place.
//!
//! - [`storage`]: the buffers a view can stand on, and what each allows.
//! - [`field`]: field metadata and the access capabilities of a field.
//! - [`fields`]: the field markers themselves.
//! - [`view`]: the field view.
//! - [`byte_order`], [`primitive`], [`nonzero`]: how values map to bytes.
//! - [`laws`]: what holds of every field and every buffer.

pub mod byte_order;
pub mod field;
pub mod fields;
pub mod laws;
pub mod nonzero;
pub mod primitive;
pub mod storage;
pub mod view;
