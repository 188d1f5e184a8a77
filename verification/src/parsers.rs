//! Document adapters: each decodes one file format into lines and drives a
//! shared [`crate::pagination::Pagination`] over them.
pub mod pdf;
pub mod txt;
