use classfile::class::consts::{ACC_CLASS_BITS, ACC_INNER_CLASS_BITS, ACC_PARAMETER_BITS, MAGIC};
use classfile::class::{Attribute, CodeAttribute, ElementValue, ExceptionInfo, LineNumberEntry};
use classfile::string::JString;

#[test]
fn access_masks() {
    assert_eq!(MAGIC, 0xCAFEBABE);
    assert_eq!(ACC_CLASS_BITS, 0xf631);
    assert_eq!(ACC_INNER_CLASS_BITS, 0x763f);
    assert_eq!(ACC_PARAMETER_BITS, 0x9010);
}

#[test]
fn records_hold_text_and_indices() {
    let code = Attribute::Code(CodeAttribute {
        max_stack: 2,
        max_locals: 1,
        code: vec![0x2a, 0xb1],
        exceptions: vec![ExceptionInfo { start_pc: 0, end_pc: 2, handler_pc: 2, catch_type: 0 }],
        attributes: vec![Attribute::LineNumberTable(vec![LineNumberEntry { start_pc: 0, line_number: 7 }])],
    });
    match &code {
        Attribute::Code(c) => {
            assert_eq!(c.code.len(), 2);
            assert_eq!(c.attributes.len(), 1);
        }
        _ => panic!("wrong attribute"),
    }
    let ext = Attribute::SourceDebugExtension(JString::from_modified_utf8(b"SMAP".to_vec()).unwrap());
    assert!(matches!(ext, Attribute::SourceDebugExtension(_)));
    let v = ElementValue::Array(vec![ElementValue::Int(3), ElementValue::Enum { enum_type: 4, const_name: 5 }]);
    assert!(matches!(v, ElementValue::Array(ref items) if items.len() == 2));
}
