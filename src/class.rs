//! The records of the Java class-file format that carry Modified UTF-8 text
//! or point into the constant pool. They hold data only.
use vstd::prelude::*;
use crate::string::JString;

pub mod consts;

verus! {

#[derive(Debug)]
pub enum Attribute {
    ConstantValue(u16),
    Code(CodeAttribute),
    StackMapTable(Vec<StackMapFrame>),
    Exceptions(Vec<u16>),
    InnerClasses(Vec<InnerClassInfo>),
    EnclosingMethod { class: u16, method: u16 },
    Synthetic,
    Signature(u16),
    SourceFile(u16),
    SourceDebugExtension(JString),
    LineNumberTable(Vec<LineNumberEntry>),
    LocalVariableTable(Vec<LocalVariableInfo>),
    LocalVariableTypeTable(Vec<LocalVariableTypeInfo>),
    Deprecated,
    RuntimeVisibleAnnotations(Vec<Annotation>),
    RuntimeInvisibleAnnotations(Vec<Annotation>),
    RuntimeVisibleParameterAnnotations(Vec<Vec<Annotation>>),
    RuntimeInvisibleParameterAnnotations(Vec<Vec<Annotation>>),
    RuntimeVisibleTypeAnnotations(Vec<TypeAnnotation>),
    RuntimeInvisibleTypeAnnotations(Vec<TypeAnnotation>),
    AnnotationDefault(ElementValue),
    BootstrapMethods(Vec<BootstrapMethod>),
    MethodParameters(Vec<ParameterInfo>),
    Module(ModuleInfo),
    ModulePackage(Vec<u16>),
    ModuleMainClass(u16),
    NestHost(u16),
    NestMembers(Vec<u16>),
    Record(Vec<RecordComponentInfo>),
    PermittedSubclasses(Vec<u16>),
    Availability(Availability),
    LangItem(u16),
    FillNativeMethod(u16),
    Unresolved { name: u16, content: Vec<u8> },
}

#[derive(Clone, Debug)]
pub enum Availability {
    From { ver: u16, default: bool },
    Removed { ver: u16, default: bool },
    Unstable { feature: u16, default: bool },
}

#[derive(Debug)]
pub struct CodeAttribute {
    pub max_stack: u16,
    pub max_locals: u16,
    pub code: Vec<u8>,
    pub exceptions: Vec<ExceptionInfo>,
    pub attributes: Vec<Attribute>,
}

#[derive(Clone, Debug)]
pub struct ExceptionInfo {
    pub start_pc: u16,
    pub end_pc: u16,
    pub handler_pc: u16,
    pub catch_type: u16,
}

#[derive(Clone, Debug)]
pub enum StackMapFrame {
    Same,
    SameLocals1StackFrame(VerificationInfo),
    SameLocals1StackFrameExtended {
        offset_deleta: u16,
        info: VerificationInfo,
    },
    ChopFrame {
        chop: u8,
        offset_delta: u16,
    },
    SameExtended {
        offset_delta: u16,
    },
    Append {
        offset_delta: u16,
        items: Vec<VerificationInfo>,
    },
    Full {
        offset_delta: u16,
        locals: Vec<VerificationInfo>,
        stack: Vec<VerificationInfo>,
    },
}

#[derive(Clone, Debug)]
pub enum VerificationInfo {
    Top,
    Integer,
    Float,
    Double,
    Long,
    Null,
    UninitializedThis,
    Object { class: u16 },
    Uninitialized { offset: u16 },
}

#[derive(Clone, Debug)]
pub struct InnerClassInfo {
    pub inner_class_info: u16,
    pub outer_class_info: u16,
    pub inner_name: u16,
    pub inner_flags: u16,
}

#[derive(Clone, Debug)]
pub struct LineNumberEntry {
    pub start_pc: u16,
    pub line_number: u16,
}

#[derive(Clone, Debug)]
pub struct LocalVariableInfo {
    pub start_pc: u16,
    pub length: u16,
    pub name: u16,
    pub descriptor: u16,
    pub index: u16,
}

#[derive(Clone, Debug)]
pub struct LocalVariableLocationInfo {
    pub start_pc: u16,
    pub length: u16,
    pub index: u16,
}

#[derive(Clone, Debug)]
pub struct LocalVariableTypeInfo {
    pub start_pc: u16,
    pub length: u16,
    pub name: u16,
    pub signature: u16,
    pub index: u16,
}

#[derive(Debug)]
pub struct Annotation {
    pub class: u16,
    pub elements: Vec<AnnotationElement>,
}

#[derive(Debug)]
pub struct AnnotationElement {
    pub name: u16,
    pub value: ElementValue,
}

#[derive(Debug)]
pub enum ElementValue {
    Byte(u16),
    Char(u16),
    Double(u16),
    Float(u16),
    Int(u16),
    Long(u16),
    Short(u16),
    Boolean(u16),
    String(u16),
    Enum { enum_type: u16, const_name: u16 },
    Class(u16),
    Annotation(Annotation),
    Array(Vec<ElementValue>),
}

#[derive(Debug)]
pub struct TypeAnnotation {
    pub target: TypeAnnotationTarget,
    pub path: Vec<TypePathSegment>,
    pub annotation: Annotation,
}

#[derive(Clone, Debug)]
pub enum TypeAnnotationTarget {
    ClassTypeParameter(u8),
    MethodTypeParameter(u8),
    SuperClass(u16),
    ClassTypeParameterBound { param: u8, bound: u8 },
    MethodTypeParameterBound { param: u8, bound: u8 },
    FieldType,
    MethodReturnType,
    RecieverType,
    FormalParameterType(u8),
    ThrowsType(u16),
    LocalVariableType(Vec<LocalVariableLocationInfo>),
    ResourceVariableType(Vec<LocalVariableLocationInfo>),
    CatchParameterType(u16),
    InstanceOfType(u16),
    NewType(u16),
    NewReferenceType(u16),
    MethodReferenceType(u16),
    CastType { offset: u16, type_var: u8 },
    GenericConstructorTypeArgument { offset: u16, type_var: u8 },
    GenericMethodTypeArgument { offset: u16, type_var: u8 },
    GenericConstructorReferenceTypeArgument { offset: u16, type_var: u8 },
    GenericMethodReferenceTypeArgument { offset: u16, type_var: u8 },
}

#[derive(Clone, Debug)]
pub enum TypePathSegment {
    Array,
    NestedType,
    Wildcard,
    ParameterizedType(u8),
}

#[derive(Clone, Debug)]
pub struct BootstrapMethod {
    pub href: u16,
    pub args: Vec<u16>,
}

#[derive(Clone, Debug)]
pub struct ParameterInfo {
    pub name: u16,
    pub access: u16,
}

#[derive(Clone, Debug)]
pub struct ModuleInfo {
    pub name: u16,
    pub access: u16,
    pub version: u16,
    pub requires: Vec<RequireInfo>,
    pub exports: Vec<ExportInfo>,
    pub opens: Vec<ExportInfo>,
    pub uses: Vec<u16>,
    pub provides: Vec<ProvidesInfo>,
}

#[derive(Clone, Debug)]
pub struct RequireInfo {
    pub requires: u16,
    pub flags: u16,
    pub version: u16,
}

#[derive(Clone, Debug)]
pub struct ExportInfo {
    pub exports: u16,
    pub flags: u16,
    pub to: Vec<u16>,
}

#[derive(Clone, Debug)]
pub struct ProvidesInfo {
    pub provides: u16,
    pub with: Vec<u16>,
}

#[derive(Debug)]
pub struct RecordComponentInfo {
    pub name: u16,
    pub descriptor: u16,
    pub attributes: Vec<Attribute>,
}

#[derive(Debug)]
pub struct FieldInfo {
    pub acc: u16,
    pub name: u16,
    pub descriptor: u16,
    pub attributes: Vec<Attribute>,
}

#[derive(Debug)]
pub struct MethodInfo {
    pub acc: u16,
    pub name: u16,
    pub descriptor: u16,
    pub attributes: Vec<Attribute>,
}

} // verus!
