use maya_classfile::attribute::{
    ConstantValueAttribute, IRAttribute, IRAttributeInfo, RuntimeAnnotationValue, StackMapFrame,
    VerificationTypeInfo,
};
use maya_classfile::bytes::ByteReader;
use maya_classfile::classfile::{AccessFlags, ClassFileVersion, IRClassFile};
use maya_classfile::io::{IOAttributeInfo, IOClassFile, IOCpTag};
use maya_classfile::mutf8::{encode, MUTFError};
use maya_classfile::pool::{
    CPClassRef, CPConstValueRef, CPConstValueRefKind, CPFieldRef, CPInvokeDynamicRef,
    CPMethodHandleRef, CPMethodRef, CPModuleInfoRef, CPNameAndTypeRef, CPPackageInfoRef, CPTagRef,
    CPUtf8Ref, IRClassfileError, IRCpTag, IRMethodRefKind,
};

fn utf8(s: &str) -> IOCpTag {
    let bytes = encode(s);
    IOCpTag::Utf8 { length: bytes.len() as u16, bytes }
}

#[test]
fn forward_reference() {
    let raw = vec![IOCpTag::Class { name_index: 2 }, utf8("Foo")];
    let ir = IRCpTag::from_io(raw).unwrap();
    match &ir[0] {
        IRCpTag::Class(r) => {
            assert_eq!(r.index, 2);
            assert_eq!(r.data.as_str(), "Foo");
        }
        other => panic!("unexpected {other:?}"),
    }
    assert!(matches!(&ir[1], IRCpTag::Utf8(s) if s.as_str() == "Foo"));
}

#[test]
fn reference_after_a_long_uses_its_logical_slot() {
    let raw = vec![
        IOCpTag::Long { bytes: [0, 0, 0, 0, 0, 0, 0, 5] },
        IOCpTag::Reserved,
        utf8("x"),
        IOCpTag::String { utf8_index: 3 },
    ];
    let ir = IRCpTag::from_io(raw).unwrap();
    assert!(matches!(ir[0], IRCpTag::Long(5)));
    assert!(matches!(ir[1], IRCpTag::Reserved));
    match &ir[3] {
        IRCpTag::String(r) => {
            assert_eq!(r.index, 3);
            assert_eq!(r.data.as_str(), "x");
        }
        other => panic!("unexpected {other:?}"),
    }
}

#[test]
fn numbers_are_big_endian() {
    let raw = vec![
        IOCpTag::Integer { bytes: [0xFF, 0xFF, 0xFF, 0xFE] },
        IOCpTag::Float { bytes: [0x3F, 0x80, 0, 0] },
        IOCpTag::Double { bytes: [0x40, 0, 0, 0, 0, 0, 0, 0] },
        IOCpTag::Reserved,
    ];
    let ir = IRCpTag::from_io(raw).unwrap();
    assert!(matches!(ir[0], IRCpTag::Integer(-2)));
    assert!(matches!(ir[1], IRCpTag::Float(bits) if f32::from_bits(bits) == 1.0));
    assert!(matches!(ir[2], IRCpTag::Double(bits) if f64::from_bits(bits) == 2.0));
}

#[test]
fn member_and_handle_resolve_through_name_and_type() {
    let raw = vec![
        utf8("f"),
        utf8("I"),
        IOCpTag::NameAndType { name_index: 1, descriptor_index: 2 },
        IOCpTag::MethodHandle { reference_kind: 1, reference_index: 5 },
        IOCpTag::FieldRef { class_index: 6, name_and_ty_index: 3 },
        IOCpTag::Class { name_index: 7 },
        utf8("Owner"),
    ];
    let ir = IRCpTag::from_io(raw).unwrap();
    match &ir[3] {
        IRCpTag::MethodHandle { ref_kind, ref_index, ref_tag } => {
            assert_eq!(*ref_kind, IRMethodRefKind::GetField);
            assert_eq!(*ref_index, 5);
            match ref_tag.as_ref() {
                IRCpTag::FieldRef { class_index, name_and_ty } => {
                    assert_eq!(*class_index, 6);
                    assert_eq!(name_and_ty.index, 3);
                    assert_eq!(name_and_ty.name.data.as_str(), "f");
                    assert_eq!(name_and_ty.ty.data.as_str(), "I");
                }
                other => panic!("unexpected {other:?}"),
            }
        }
        other => panic!("unexpected {other:?}"),
    }
    let field = CPFieldRef::from_cp(&ir, 5).unwrap();
    assert_eq!(field.class.index, 6);
    assert_eq!(field.class.data.data.as_str(), "Owner");
    assert_eq!(field.name_and_ty.name.index, 1);
}

#[test]
fn index_out_of_range() {
    let raw = vec![IOCpTag::Class { name_index: 9 }];
    assert_eq!(
        IRCpTag::from_io(raw).unwrap_err(),
        IRClassfileError::IndexOutOfRange { index: 9, size: 1 }
    );
    let raw = vec![IOCpTag::String { utf8_index: 0 }];
    assert_eq!(
        IRCpTag::from_io(raw).unwrap_err(),
        IRClassfileError::IndexOutOfRange { index: 0, size: 1 }
    );
}

#[test]
fn wrong_referent() {
    let raw = vec![IOCpTag::Integer { bytes: [0, 0, 0, 1] }, IOCpTag::Class { name_index: 1 }];
    assert_eq!(
        IRCpTag::from_io(raw).unwrap_err(),
        IRClassfileError::WrongReferent { expected: 1, got: 3 }
    );
    let raw = vec![utf8("a"), IOCpTag::MethodRef { class_index: 1, name_and_ty_index: 1 }];
    assert_eq!(
        IRCpTag::from_io(raw).unwrap_err(),
        IRClassfileError::WrongReferent { expected: 12, got: 1 }
    );
}

#[test]
fn invalid_reference_kind() {
    let raw = vec![IOCpTag::MethodHandle { reference_kind: 10, reference_index: 1 }];
    assert_eq!(IRCpTag::from_io(raw).unwrap_err(), IRClassfileError::InvalidReferenceKind(10));
}

#[test]
fn bad_utf8_in_pool() {
    let raw = vec![IOCpTag::Utf8 { length: 1, bytes: vec![0] }];
    assert_eq!(
        IRCpTag::from_io(raw).unwrap_err(),
        IRClassfileError::Mutf8(MUTFError::NullByteInInput)
    );
}

#[test]
fn first_failing_slot_decides_the_error() {
    let raw = vec![IOCpTag::Class { name_index: 7 }, IOCpTag::MethodHandle {
        reference_kind: 0,
        reference_index: 1,
    }];
    assert_eq!(
        IRCpTag::from_io(raw).unwrap_err(),
        IRClassfileError::IndexOutOfRange { index: 7, size: 2 }
    );
}

#[test]
fn method_ref_kinds() {
    assert_eq!(IRMethodRefKind::from(1), IRMethodRefKind::GetField);
    assert_eq!(IRMethodRefKind::from(5), IRMethodRefKind::InvokeVirtual);
    assert_eq!(IRMethodRefKind::from(9), IRMethodRefKind::InvokeInterface);
}

#[test]
fn typed_pool_lookups() {
    let ir = IRCpTag::from_io(vec![
        utf8("n"),
        utf8("d"),
        IOCpTag::NameAndType { name_index: 1, descriptor_index: 2 },
        IOCpTag::Class { name_index: 1 },
    ])
    .unwrap();
    let nt = CPNameAndTypeRef::from_cp(&ir, 3).unwrap();
    assert_eq!((nt.name.data.as_str(), nt.ty.data.as_str()), ("n", "d"));
    let c = CPClassRef::from_cp(&ir, 4).unwrap();
    assert_eq!((c.index, c.data.index, c.data.data.as_str()), (4, 1, "n"));
    assert_eq!(
        CPUtf8Ref::from_cp(&ir, 3).unwrap_err(),
        IRClassfileError::WrongReferent { expected: 1, got: 12 }
    );
    assert_eq!(
        CPUtf8Ref::from_cp(&ir, 5).unwrap_err(),
        IRClassfileError::IndexOutOfRange { index: 5, size: 4 }
    );
}

fn pool() -> Vec<IRCpTag> {
    IRCpTag::from_io(vec![
        utf8("Code"),
        utf8("LineNumberTable"),
        utf8("SourceFile"),
        utf8("A.java"),
        utf8("StackMapTable"),
        utf8("ConstantValue"),
        IOCpTag::Integer { bytes: [0, 0, 0, 42] },
        utf8("Bogus"),
        utf8("RuntimeVisibleAnnotations"),
        utf8("LAnno;"),
        utf8("value"),
        utf8("Synthetic"),
    ])
    .unwrap()
}

fn decode_attr(cp: &[IRCpTag], name_index: u16, info: Vec<u8>) -> Result<IRAttributeInfo, IRClassfileError> {
    let raw = IOAttributeInfo { attribute_name_index: name_index, attribute_length: info.len() as u32, info };
    IRAttributeInfo::from_io(cp, &raw)
}

#[test]
fn source_file_attribute() {
    let cp = pool();
    let a = decode_attr(&cp, 3, vec![0, 4]).unwrap();
    assert_eq!(a.attr.name(), "SourceFile");
    assert_eq!(a.length, 2);
    match &a.attr {
        IRAttribute::SourceFile(r) => assert_eq!((r.index, r.data.as_str()), (4, "A.java")),
        other => panic!("unexpected {other:?}"),
    }
}

#[test]
fn constant_value_attribute() {
    let cp = pool();
    let a = decode_attr(&cp, 6, vec![0, 7]).unwrap();
    assert!(matches!(a.attr, IRAttribute::ConstantValue(ConstantValueAttribute::Int { cp_idx: 7, value: 42 })));
    assert_eq!(
        decode_attr(&cp, 6, vec![0, 1]).unwrap_err(),
        IRClassfileError::WrongReferent { expected: 3, got: 1 }
    );
}

#[test]
fn empty_payload_marker() {
    let cp = pool();
    let a = decode_attr(&cp, 12, vec![]).unwrap();
    assert!(matches!(a.attr, IRAttribute::Synthetic));
    assert_eq!(a.length, 0);
}

#[test]
fn unknown_attribute() {
    let cp = pool();
    assert_eq!(
        decode_attr(&cp, 8, vec![1, 2]).unwrap_err(),
        IRClassfileError::UnknownAttribute("Bogus".to_string())
    );
}

#[test]
fn trailing_bytes() {
    let cp = pool();
    assert_eq!(decode_attr(&cp, 3, vec![0, 4, 9]).unwrap_err(), IRClassfileError::TrailingBytes);
}

#[test]
fn truncated_payload() {
    let cp = pool();
    assert!(matches!(decode_attr(&cp, 3, vec![0]).unwrap_err(), IRClassfileError::Bytes(_)));
}

#[test]
fn code_with_nested_attributes() {
    let cp = pool();
    let mut info = vec![0, 2, 0, 1, 0, 0, 0, 3, 0x2A, 0xB1, 0x00];
    info.extend_from_slice(&[0, 1, 0, 0, 0, 2, 0, 3, 0, 0]);
    info.extend_from_slice(&[0, 1]);
    info.extend_from_slice(&[0, 2, 0, 0, 0, 6, 0, 1, 0, 0, 0, 7]);
    let total = info.len() as u32;
    let a = decode_attr(&cp, 1, info).unwrap();
    assert_eq!(a.length, total);
    match &a.attr {
        IRAttribute::Code(c) => {
            assert_eq!((c.max_stack, c.max_locals), (2, 1));
            assert_eq!(c.code, vec![0x2A, 0xB1, 0x00]);
            assert_eq!(c.exception_table.len(), 1);
            assert_eq!(c.exception_table[0].handler_pc, 3);
            assert_eq!(c.attributes.len(), 1);
            match &c.attributes[0].attr {
                IRAttribute::LineNumberTable(t) => {
                    assert_eq!(t.line_number_table.len(), 1);
                    assert_eq!(t.line_number_table[0].line_number, 7);
                }
                other => panic!("unexpected {other:?}"),
            }
        }
        other => panic!("unexpected {other:?}"),
    }
}

#[test]
fn code_inside_code() {
    let cp = pool();
    let inner = vec![0u8, 0, 0, 0, 0, 0, 0, 0, 0, 0, 0, 0];
    let mut info = vec![0, 1, 0, 1, 0, 0, 0, 0, 0, 0, 0, 1, 0, 1, 0, 0, 0, inner.len() as u8];
    info.extend_from_slice(&inner);
    let a = decode_attr(&cp, 1, info).unwrap();
    match &a.attr {
        IRAttribute::Code(c) => assert!(matches!(c.attributes[0].attr, IRAttribute::Code(_))),
        other => panic!("unexpected {other:?}"),
    }
}

#[test]
fn same_locals_one_stack_item_frame() {
    let data = [65u8, 1];
    let mut r = ByteReader::new(&data);
    let f = StackMapFrame::new(&mut r).unwrap();
    assert!(matches!(
        f,
        StackMapFrame::SameLocals1StackItemFrame {
            frame_type: 65,
            offset_delta: 1,
            stack: VerificationTypeInfo::IntegerVariableInfo
        }
    ));
}

#[test]
fn full_frame_round_trip() {
    let data = [255u8, 0, 10, 0, 2, 7, 0, 5, 1, 0, 1, 5];
    let mut r = ByteReader::new(&data);
    let f = StackMapFrame::new(&mut r).unwrap();
    match &f {
        StackMapFrame::FullFrame { offset_delta, locals, stack, .. } => {
            assert_eq!(*offset_delta, 10);
            assert_eq!(
                locals,
                &vec![
                    VerificationTypeInfo::ObjectVariableInfo { cpool_idx: 5 },
                    VerificationTypeInfo::IntegerVariableInfo
                ]
            );
            assert_eq!(stack, &vec![VerificationTypeInfo::NullVariableInfo]);
        }
        other => panic!("unexpected {other:?}"),
    }
    let mut out = Vec::new();
    f.write(&mut out);
    assert_eq!(out, data.to_vec());
}

#[test]
fn frame_shapes_follow_the_tag() {
    let cases: [(&[u8], usize); 6] = [
        (&[3], 1),
        (&[247, 0, 9, 4], 4),
        (&[249, 0, 2], 3),
        (&[251, 1, 0], 3),
        (&[253, 0, 1, 3, 2], 5),
        (&[64, 6], 2),
    ];
    for (bytes, used) in cases {
        let mut r = ByteReader::new(bytes);
        let f = StackMapFrame::new(&mut r).unwrap();
        assert_eq!(r.pos, used);
        let mut out = Vec::new();
        f.write(&mut out);
        assert_eq!(out, bytes.to_vec());
    }
    let mut r = ByteReader::new(&[253u8, 0, 1, 3, 2]);
    assert!(matches!(
        StackMapFrame::new(&mut r).unwrap(),
        StackMapFrame::AppendFrame { ref locals, .. } if locals.len() == 2
    ));
}

#[test]
fn reserved_frame_tag() {
    let mut r = ByteReader::new(&[128u8]);
    assert_eq!(StackMapFrame::new(&mut r).unwrap_err(), IRClassfileError::UnknownStackMapFrameTag(128));
    let mut r = ByteReader::new(&[246u8]);
    assert_eq!(StackMapFrame::new(&mut r).unwrap_err(), IRClassfileError::UnknownStackMapFrameTag(246));
}

#[test]
fn unknown_verification_type() {
    let mut r = ByteReader::new(&[9u8]);
    assert_eq!(VerificationTypeInfo::read(&mut r).unwrap_err(), IRClassfileError::UnknownVerificationTypeTag(9));
    let mut r = ByteReader::new(&[3u8, 4]);
    assert_eq!(VerificationTypeInfo::read(&mut r).unwrap(), VerificationTypeInfo::DoubleVariableInfo);
    assert_eq!(VerificationTypeInfo::read(&mut r).unwrap(), VerificationTypeInfo::LongVariableInfo);
}

#[test]
fn stack_map_table_attribute() {
    let cp = pool();
    let a = decode_attr(&cp, 5, vec![0, 2, 0, 255, 0, 1, 0, 0, 0, 0]).unwrap();
    match &a.attr {
        IRAttribute::StackMapTable(t) => assert_eq!(t.entries.len(), 2),
        other => panic!("unexpected {other:?}"),
    }
}

#[test]
fn annotations_with_nested_annotation() {
    let cp = pool();
    let info = vec![
        0, 1, // one annotation
        0, 10, 0, 2, // type LAnno;, two pairs
        0, 11, b'I', 0, 7, // value = constant 7
        0, 11, b'@', 0, 10, 0, 1, 0, 11, b'[', 0, 2, b'Z', 0, 1, b'c', 0, 4,
    ];
    let a = decode_attr(&cp, 9, info).unwrap();
    match &a.attr {
        IRAttribute::RuntimeVisibleAnnotations { annotations } => {
            assert_eq!(annotations.len(), 1);
            assert_eq!(annotations[0].ty.data.as_str(), "LAnno;");
            assert!(matches!(
                annotations[0].pairs[0].value,
                RuntimeAnnotationValue::ConstValueIndex { tag: b'I', const_value_index: 7 }
            ));
            match &annotations[0].pairs[1].value {
                RuntimeAnnotationValue::Annotation(inner) => {
                    assert_eq!(inner.pairs.len(), 1);
                    assert!(matches!(
                        &inner.pairs[0].value,
                        RuntimeAnnotationValue::ArrayValue { values } if values.len() == 2
                    ));
                }
                other => panic!("unexpected {other:?}"),
            }
        }
        other => panic!("unexpected {other:?}"),
    }
}

#[test]
fn unknown_annotation_tag() {
    let cp = pool();
    assert_eq!(
        decode_attr(&cp, 9, vec![0, 1, 0, 10, 0, 1, 0, 11, b'x']).unwrap_err(),
        IRClassfileError::UnknownAnnotationTag(b'x')
    );
}

#[test]
fn whole_class_lifts() {
    let mut data = vec![0xCA, 0xFE, 0xBA, 0xBE, 0x00, 0x03, 0x00, 0x2D, 0x00, 0x05];
    data.extend_from_slice(&[1, 0, 1, b'A', 7, 0, 1, 1, 0, 1, b'f', 1, 0, 1, b'I']);
    data.extend_from_slice(&[0x00, 0x21, 0x00, 0x02, 0x00, 0x00]);
    data.extend_from_slice(&[0x00, 0x00]);
    data.extend_from_slice(&[0x00, 0x01, 0x00, 0x09, 0x00, 0x03, 0x00, 0x04, 0x00, 0x00]);
    data.extend_from_slice(&[0x00, 0x00, 0x00, 0x00]);
    let mut r = ByteReader::new(&data);
    let io = IOClassFile::read(&mut r).unwrap();
    let ir = IRClassFile::from_io(io).unwrap();
    assert_eq!(ir.version, ClassFileVersion { major: 45, minor: 3 });
    assert_eq!(ir.access_flags, AccessFlags::PUBLIC | AccessFlags::SUPER);
    assert_eq!(ir.this_class.data.data.as_str(), "A");
    assert!(ir.super_class.is_none());
    assert_eq!(ir.fields.len(), 1);
    assert_eq!(ir.fields[0].name.data.as_str(), "f");
    assert_eq!(ir.fields[0].descriptor.data.as_str(), "I");
}

#[test]
fn versions_order_by_major_then_minor() {
    let a = ClassFileVersion { major: 52, minor: 0 };
    let b = ClassFileVersion { major: 51, minor: 9 };
    let c = ClassFileVersion { major: 52, minor: 1 };
    assert!(b < a && a < c);
    assert_eq!(a.partial_cmp(&a), Some(std::cmp::Ordering::Equal));
}

#[test]
fn const_handle_and_tag_references() {
    let ir = IRCpTag::from_io(vec![
        IOCpTag::Integer { bytes: [0, 0, 1, 0] },
        utf8("m"),
        utf8("()V"),
        IOCpTag::NameAndType { name_index: 2, descriptor_index: 3 },
        IOCpTag::MethodRef { class_index: 6, name_and_ty_index: 4 },
        IOCpTag::Class { name_index: 2 },
        IOCpTag::MethodHandle { reference_kind: 6, reference_index: 5 },
    ])
    .unwrap();
    let c = CPConstValueRef::from_cp(&ir, 1).unwrap();
    assert!(matches!(c.kind, CPConstValueRefKind::Int(256)));
    let s = CPConstValueRef::from_cp(&ir, 2).unwrap();
    assert!(matches!(s.kind, CPConstValueRefKind::String(ref t) if t.as_str() == "m"));
    assert_eq!(
        CPConstValueRef::from_cp(&ir, 4).unwrap_err(),
        IRClassfileError::WrongReferent { expected: 3, got: 12 }
    );
    let h = CPMethodHandleRef::from_cp(&ir, 7).unwrap();
    assert_eq!(h.ref_kind, IRMethodRefKind::InvokeStatic);
    assert_eq!(h.ref_index, 5);
    assert!(matches!(h.ref_tag.as_ref(), IRCpTag::MethodRef { class_index: 6, .. }));
    let t = CPTagRef::from_cp(&ir, 6).unwrap();
    assert!(matches!(t.tag, IRCpTag::Class(ref u) if u.index == 2 && u.data.as_str() == "m"));
    assert_eq!(
        CPTagRef::from_cp(&ir, 8).unwrap_err(),
        IRClassfileError::IndexOutOfRange { index: 8, size: 7 }
    );
}

#[test]
fn handle_kind_must_match_target() {
    let raw = vec![
        utf8("f"),
        IOCpTag::NameAndType { name_index: 1, descriptor_index: 1 },
        IOCpTag::MethodRef { class_index: 1, name_and_ty_index: 2 },
        IOCpTag::MethodHandle { reference_kind: 1, reference_index: 3 },
    ];
    assert_eq!(
        IRCpTag::from_io(raw).unwrap_err(),
        IRClassfileError::WrongReferent { expected: 9, got: 10 }
    );
}

#[test]
fn constructors_from_a_slot() {
    let ir = IRCpTag::from_io(vec![
        utf8("m"),
        utf8("()V"),
        IOCpTag::NameAndType { name_index: 1, descriptor_index: 2 },
        IOCpTag::Class { name_index: 1 },
        IOCpTag::MethodRef { class_index: 4, name_and_ty_index: 3 },
        IOCpTag::Module { name_index: 1 },
        IOCpTag::Package { name_index: 2 },
        IOCpTag::InvokeDynamic { bootstrap_method_attr_index: 0, name_and_ty_index: 3 },
    ])
    .unwrap();
    let m = CPMethodRef::new(&ir, 5, &ir[4]).unwrap();
    assert_eq!((m.index, m.class.index, m.class.data.data.as_str()), (5, 4, "m"));
    assert_eq!(
        CPFieldRef::new(&ir, 5, &ir[4]).unwrap_err(),
        IRClassfileError::WrongReferent { expected: 9, got: 10 }
    );
    assert_eq!(CPModuleInfoRef::new(6, &ir[5]).unwrap().data.data.as_str(), "m");
    assert_eq!(CPPackageInfoRef::new(7, &ir[6]).unwrap().data.data.as_str(), "()V");
    let d = CPInvokeDynamicRef::new(8, &ir[7]).unwrap();
    assert_eq!((d.index, d.name_and_ty.index), (8, 3));
}
