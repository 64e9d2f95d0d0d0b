//! Magic number, version bounds and access-flag bit masks of the class-file format.
use vstd::prelude::*;

verus! {

pub const MAGIC: u32 = 0xCAFEBABE;
pub const MIN_VERSION: u16 = 45;
pub const MAX_VERSION: u16 = 60;
pub const PREVIEW_FEATURES: u16 = 0xffff;

pub const ACC_CLASS_BITS: u16 = ACC_PUBLIC
    | ACC_FINAL
    | ACC_SUPER
    | ACC_INTERFACE
    | ACC_ABSTRACT
    | ACC_SYNTHETIC
    | ACC_ANNOTATION
    | ACC_ENUM
    | ACC_MODULE;

pub const ACC_FIELD_BITS: u16 = ACC_PUBLIC
    | ACC_PRIVATE
    | ACC_PROTECTED
    | ACC_STATIC
    | ACC_FINAL
    | ACC_VOLATILE
    | ACC_TRANSIENT
    | ACC_SYNTHETIC
    | ACC_ENUM;

pub const ACC_METHOD_BITS: u16 = ACC_PUBLIC
    | ACC_PRIVATE
    | ACC_PROTECTED
    | ACC_STATIC
    | ACC_FINAL
    | ACC_SYNCHRONIZED
    | ACC_BRIDGE
    | ACC_VARARGS
    | ACC_NATIVE
    | ACC_ABSTRACT
    | ACC_STRICT
    | ACC_SYNTHETIC;

pub const ACC_INNER_CLASS_BITS: u16 =
    ACC_CLASS_BITS & !ACC_MODULE | ACC_PROTECTED | ACC_PRIVATE | ACC_STATIC;

pub const ACC_REQUIRES_BITS: u16 =
    ACC_TRANSITIVE | ACC_STATIC_PHASE | ACC_SYNTHETIC | ACC_MANDATED;
pub const ACC_EXPORTS_BITS: u16 = ACC_SYNTHETIC | ACC_MANDATED;
pub const ACC_PARAMETER_BITS: u16 = ACC_FINAL | ACC_SYNTHETIC | ACC_MANDATED;

pub const ACC_PUBLIC: u16 = 0x0001;
pub const ACC_PRIVATE: u16 = 0x0002;
pub const ACC_PROTECTED: u16 = 0x0004;
pub const ACC_STATIC: u16 = 0x0008;
pub const ACC_FINAL: u16 = 0x0010;
pub const ACC_SUPER: u16 = 0x0020;
pub const ACC_TRANSITIVE: u16 = 0x0020;
pub const ACC_SYNCHRONIZED: u16 = 0x0020;
pub const ACC_VOLATILE: u16 = 0x0040;
pub const ACC_STATIC_PHASE: u16 = 0x0040;
pub const ACC_BRIDGE: u16 = 0x0040;
pub const ACC_TRANSIENT: u16 = 0x0080;
pub const ACC_VARARGS: u16 = 0x0080;
pub const ACC_NATIVE: u16 = 0x0100;
pub const ACC_INTERFACE: u16 = 0x0200;
pub const ACC_ABSTRACT: u16 = 0x0400;
pub const ACC_STRICT: u16 = 0x0800;
pub const ACC_SYNTHETIC: u16 = 0x1000;
pub const ACC_ANNOTATION: u16 = 0x2000;
pub const ACC_ENUM: u16 = 0x4000;
pub const ACC_MODULE: u16 = 0x8000;
pub const ACC_MANDATED: u16 = 0x8000;

} // verus!
