//! A rope text buffer that grows by appending bounded leaves, with verified
//! weight bookkeeping and indexed lookup, and the state of the screens that
//! browse and edit such buffers.

pub mod app;
pub mod growth;
pub mod popup;
pub mod rope;
pub mod selection;
pub mod text;
