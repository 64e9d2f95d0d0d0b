//! Modified UTF-8, the text encoding of Java class files: a validator, borrowed
//! and owned text types, decoders, and the class-file records that hold such text.
pub mod class;
pub mod iter;
pub mod mutf8;
pub mod string;
