//! The typed constant pool: every raw index of the file's pool resolved into
//! a reference that carries its index and a shared snapshot of its target.
use vstd::prelude::*;
use std::rc::Rc;
use crate::bytes::{u32_at, u64_at, BytesError};
use crate::io::IOCpTag;
use crate::mutf8::{decode, mutf8_decode, MUTFError};

verus! {

/// Why a pool or an attribute could not be lifted.
#[derive(Debug, PartialEq, Eq)]
pub enum IRClassfileError {
    /// A `Utf8` entry is not modified UTF-8.
    Mutf8(MUTFError),
    /// An attribute payload ended inside a structure.
    Bytes(BytesError),
    /// An index is zero or past the last slot of a pool of `size` slots.
    IndexOutOfRange { index: u16, size: usize },
    /// An index leads to an entry of another kind than its place requires;
    /// both kinds are given by their tag bytes.
    WrongReferent { expected: u8, got: u8 },
    /// A method handle's reference kind is outside `1..=9`.
    InvalidReferenceKind(u8),
    /// An attribute name with no decoder.
    UnknownAttribute(String),
    /// A stack-map frame tag in the reserved range.
    UnknownStackMapFrameTag(u8),
    /// A verification type tag above 8.
    UnknownVerificationTypeTag(u8),
    /// An annotation element tag outside the known set.
    UnknownAnnotationTag(u8),
    /// An attribute payload holds bytes after its grammar is done.
    TrailingBytes,
}

/// The kind of a method handle.
#[derive(Debug, Clone, Copy, PartialEq, Eq, Structural)]
pub enum IRMethodRefKind {
    GetField,
    GetStatic,
    PutField,
    PutStatic,
    InvokeVirtual,
    InvokeStatic,
    InvokeSpecial,
    NewInvokeSpecial,
    InvokeInterface,
}

impl IRMethodRefKind {
    /// The kind that a reference-kind byte in `1..=9` names.
    pub open spec fn spec_from(value: u8) -> IRMethodRefKind {
        if value == 1 {
            IRMethodRefKind::GetField
        } else if value == 2 {
            IRMethodRefKind::GetStatic
        } else if value == 3 {
            IRMethodRefKind::PutField
        } else if value == 4 {
            IRMethodRefKind::PutStatic
        } else if value == 5 {
            IRMethodRefKind::InvokeVirtual
        } else if value == 6 {
            IRMethodRefKind::InvokeStatic
        } else if value == 7 {
            IRMethodRefKind::InvokeSpecial
        } else if value == 8 {
            IRMethodRefKind::NewInvokeSpecial
        } else {
            IRMethodRefKind::InvokeInterface
        }
    }

    /// The kind that a reference-kind byte names.
    pub fn from(value: u8) -> (r: IRMethodRefKind)
        requires
            1 <= value <= 9,
        ensures
            r == IRMethodRefKind::spec_from(value),
    {
        match value {
            1 => IRMethodRefKind::GetField,
            2 => IRMethodRefKind::GetStatic,
            3 => IRMethodRefKind::PutField,
            4 => IRMethodRefKind::PutStatic,
            5 => IRMethodRefKind::InvokeVirtual,
            6 => IRMethodRefKind::InvokeStatic,
            7 => IRMethodRefKind::InvokeSpecial,
            8 => IRMethodRefKind::NewInvokeSpecial,
            _ => IRMethodRefKind::InvokeInterface,
        }
    }
}

/// A reference to a `Utf8` entry and its text.
#[derive(Debug)]
pub struct CPUtf8Ref {
    pub data: Rc<String>,
    pub index: u16,
}

/// A reference to a `Class` entry and the reference to its name.
#[derive(Debug)]
pub struct CPClassRef {
    pub data: CPUtf8Ref,
    pub index: u16,
}

/// A reference to a `NameAndType` entry and its two texts.
#[derive(Debug)]
pub struct CPNameAndTypeRef {
    pub index: u16,
    pub name: CPUtf8Ref,
    pub ty: CPUtf8Ref,
}

/// A reference to a `Module` entry and the reference to its name.
#[derive(Debug)]
pub struct CPModuleInfoRef {
    pub data: CPUtf8Ref,
    pub index: u16,
}

/// A reference to a `Package` entry and the reference to its name.
#[derive(Debug)]
pub struct CPPackageInfoRef {
    pub data: CPUtf8Ref,
    pub index: u16,
}

/// A reference to a `FieldRef` entry, its class resolved.
#[derive(Debug)]
pub struct CPFieldRef {
    pub class: CPClassRef,
    pub name_and_ty: CPNameAndTypeRef,
    pub index: u16,
}

/// A reference to a `MethodRef` entry, its class resolved.
#[derive(Debug)]
pub struct CPMethodRef {
    pub class: CPClassRef,
    pub name_and_ty: CPNameAndTypeRef,
    pub index: u16,
}

/// A reference to an `InvokeDynamic` entry.
#[derive(Debug)]
pub struct CPInvokeDynamicRef {
    pub bootstrap_method_attr_index: u16,
    pub name_and_ty: CPNameAndTypeRef,
    pub index: u16,
}

/// A constant a pool slot holds, by kind. `Float` and `Double` hold their
/// IEEE-754 bits.
#[derive(Debug)]
pub enum CPConstValueRefKind {
    Double(u64),
    Float(u32),
    Int(i32),
    Long(i64),
    String(Rc<String>),
}

/// A reference to a slot that holds a constant, with the constant.
#[derive(Debug)]
pub struct CPConstValueRef {
    pub index: u16,
    pub kind: CPConstValueRefKind,
}

/// A reference to a `MethodHandle` entry with its kind and target.
#[derive(Debug)]
pub struct CPMethodHandleRef {
    pub ref_kind: IRMethodRefKind,
    pub ref_tag: Box<IRCpTag>,
    pub ref_index: u16,
    pub index: u16,
}

/// A reference to any slot with a copy of what it holds.
#[derive(Debug)]
pub struct CPTagRef {
    pub tag: IRCpTag,
    pub index: u16,
}

/// One slot of the typed pool. Numbers are kept as the file gives them:
/// `Float` and `Double` hold their IEEE-754 bits.
#[derive(Debug)]
pub enum IRCpTag {
    Utf8(Rc<String>),
    Integer(i32),
    Float(u32),
    Long(i64),
    Double(u64),
    Class(CPUtf8Ref),
    String(CPUtf8Ref),
    FieldRef { class_index: u16, name_and_ty: CPNameAndTypeRef },
    MethodRef { class_index: u16, name_and_ty: CPNameAndTypeRef },
    InterfaceMethodRef { class_index: u16, name_and_ty: CPNameAndTypeRef },
    NameAndType { name: CPUtf8Ref, descriptor: CPUtf8Ref },
    MethodHandle { ref_kind: IRMethodRefKind, ref_index: u16, ref_tag: Box<IRCpTag> },
    MethodType(CPUtf8Ref),
    InvokeDynamic { bootstrap_method_attr_index: u16, name_and_ty: CPNameAndTypeRef },
    Module { name: CPUtf8Ref },
    Package { name: CPUtf8Ref },
    Reserved,
}

impl IRCpTag {
    /// The tag byte of the entry's kind; 0 for the reserved slot.
    pub open spec fn spec_id(&self) -> u8 {
        match self {
            IRCpTag::Utf8(..) => 1,
            IRCpTag::Integer(..) => 3,
            IRCpTag::Float(..) => 4,
            IRCpTag::Long(..) => 5,
            IRCpTag::Double(..) => 6,
            IRCpTag::Class(..) => 7,
            IRCpTag::String(..) => 8,
            IRCpTag::FieldRef { .. } => 9,
            IRCpTag::MethodRef { .. } => 10,
            IRCpTag::InterfaceMethodRef { .. } => 11,
            IRCpTag::NameAndType { .. } => 12,
            IRCpTag::MethodHandle { .. } => 15,
            IRCpTag::MethodType(..) => 16,
            IRCpTag::InvokeDynamic { .. } => 18,
            IRCpTag::Module { .. } => 19,
            IRCpTag::Package { .. } => 20,
            IRCpTag::Reserved => 0,
        }
    }

    /// The tag byte of the entry's kind; 0 for the reserved slot.
    pub fn id(&self) -> (r: u8)
        ensures
            r == self.spec_id(),
    {
        match self {
            IRCpTag::Utf8(..) => 1,
            IRCpTag::Integer(..) => 3,
            IRCpTag::Float(..) => 4,
            IRCpTag::Long(..) => 5,
            IRCpTag::Double(..) => 6,
            IRCpTag::Class(..) => 7,
            IRCpTag::String(..) => 8,
            IRCpTag::FieldRef { .. } => 9,
            IRCpTag::MethodRef { .. } => 10,
            IRCpTag::InterfaceMethodRef { .. } => 11,
            IRCpTag::NameAndType { .. } => 12,
            IRCpTag::MethodHandle { .. } => 15,
            IRCpTag::MethodType(..) => 16,
            IRCpTag::InvokeDynamic { .. } => 18,
            IRCpTag::Module { .. } => 19,
            IRCpTag::Package { .. } => 20,
            IRCpTag::Reserved => 0,
        }
    }
}

/// The error for an index that names no slot of a pool of `len` slots.
pub open spec fn out_of_range(n: u16, len: int) -> IRClassfileError {
    IRClassfileError::IndexOutOfRange { index: n, size: len as usize }
}

/// The tag that a method handle of kind `kind` expects of its target:
/// fields for kinds 1 to 4, interface methods for 9, methods otherwise.
pub open spec fn expected_member_tag(kind: u8) -> u8 {
    if kind <= 4 {
        9
    } else if kind == 9 {
        11
    } else {
        10
    }
}

/// A target with tag `tag` suits a handle of kind `kind`; kinds 6 and 7 also
/// take interface methods.
pub open spec fn member_fits(kind: u8, tag: u8) -> bool {
    tag == expected_member_tag(kind) || ((kind == 6 || kind == 7) && tag == 11)
}

/// Why the `Utf8` slot `n` of the raw pool cannot be used, if it cannot.
pub open spec fn raw_utf8_error(raw: Seq<IOCpTag>, n: u16) -> Option<IRClassfileError> {
    if !(1 <= n <= raw.len()) {
        Some(out_of_range(n, raw.len() as int))
    } else {
        match raw[n - 1] {
            IOCpTag::Utf8 { bytes, .. } => match mutf8_decode(bytes@) {
                Ok(_) => None,
                Err(e) => Some(IRClassfileError::Mutf8(e)),
            },
            t => Some(IRClassfileError::WrongReferent { expected: 1, got: t.spec_id() }),
        }
    }
}

/// `r` is the reference to the `Utf8` slot `n` of the raw pool, with its
/// decoded text.
pub open spec fn raw_utf8_ref(raw: Seq<IOCpTag>, n: u16, r: CPUtf8Ref) -> bool {
    &&& r.index == n
    &&& 1 <= n <= raw.len()
    &&& match raw[n - 1] {
        IOCpTag::Utf8 { bytes, .. } => mutf8_decode(bytes@) == Ok::<Seq<char>, MUTFError>(
            r.data@,
        ),
        _ => false,
    }
}

/// Why the `NameAndType` slot `n` of the raw pool cannot be used.
pub open spec fn raw_name_and_type_error(raw: Seq<IOCpTag>, n: u16) -> Option<IRClassfileError> {
    if !(1 <= n <= raw.len()) {
        Some(out_of_range(n, raw.len() as int))
    } else {
        match raw[n - 1] {
            IOCpTag::NameAndType { name_index, descriptor_index } => {
                if raw_utf8_error(raw, name_index) is Some {
                    raw_utf8_error(raw, name_index)
                } else {
                    raw_utf8_error(raw, descriptor_index)
                }
            },
            t => Some(IRClassfileError::WrongReferent { expected: 12, got: t.spec_id() }),
        }
    }
}

/// `r` is the reference to the `NameAndType` slot `n` of the raw pool.
pub open spec fn raw_name_and_type_ref(raw: Seq<IOCpTag>, n: u16, r: CPNameAndTypeRef) -> bool {
    &&& r.index == n
    &&& 1 <= n <= raw.len()
    &&& match raw[n - 1] {
        IOCpTag::NameAndType { name_index, descriptor_index } => raw_utf8_ref(
            raw,
            name_index,
            r.name,
        ) && raw_utf8_ref(raw, descriptor_index, r.ty),
        _ => false,
    }
}

/// Why slot `n` of the raw pool cannot be the target of a handle of kind
/// `kind`.
pub open spec fn raw_member_error(raw: Seq<IOCpTag>, kind: u8, n: u16) -> Option<
    IRClassfileError,
> {
    if !(1 <= n <= raw.len()) {
        Some(out_of_range(n, raw.len() as int))
    } else if !member_fits(kind, raw[n - 1].spec_id()) {
        Some(
            IRClassfileError::WrongReferent {
                expected: expected_member_tag(kind),
                got: raw[n - 1].spec_id(),
            },
        )
    } else {
        match raw[n - 1] {
            IOCpTag::FieldRef { name_and_ty_index, .. } => raw_name_and_type_error(
                raw,
                name_and_ty_index,
            ),
            IOCpTag::MethodRef { name_and_ty_index, .. } => raw_name_and_type_error(
                raw,
                name_and_ty_index,
            ),
            IOCpTag::InterfaceMethodRef { name_and_ty_index, .. } => raw_name_and_type_error(
                raw,
                name_and_ty_index,
            ),
            _ => None,
        }
    }
}

/// `t` is the lifted form of the field, method or interface-method slot `n`
/// of the raw pool.
pub open spec fn raw_member(raw: Seq<IOCpTag>, n: u16, t: IRCpTag) -> bool {
    &&& 1 <= n <= raw.len()
    &&& match (raw[n - 1], t) {
        (
            IOCpTag::FieldRef { class_index, name_and_ty_index },
            IRCpTag::FieldRef { class_index: c, name_and_ty },
        ) => c == class_index && raw_name_and_type_ref(raw, name_and_ty_index, name_and_ty),
        (
            IOCpTag::MethodRef { class_index, name_and_ty_index },
            IRCpTag::MethodRef { class_index: c, name_and_ty },
        ) => c == class_index && raw_name_and_type_ref(raw, name_and_ty_index, name_and_ty),
        (
            IOCpTag::InterfaceMethodRef { class_index, name_and_ty_index },
            IRCpTag::InterfaceMethodRef { class_index: c, name_and_ty },
        ) => c == class_index && raw_name_and_type_ref(raw, name_and_ty_index, name_and_ty),
        _ => false,
    }
}

/// Why slot `k` (from 0) of the raw pool cannot be lifted, if it cannot.
pub open spec fn entry_error(raw: Seq<IOCpTag>, k: int) -> Option<IRClassfileError> {
    match raw[k] {
        IOCpTag::Utf8 { bytes, .. } => match mutf8_decode(bytes@) {
            Ok(_) => None,
            Err(e) => Some(IRClassfileError::Mutf8(e)),
        },
        IOCpTag::Class { name_index } => raw_utf8_error(raw, name_index),
        IOCpTag::String { utf8_index } => raw_utf8_error(raw, utf8_index),
        IOCpTag::MethodType { descriptor_index } => raw_utf8_error(raw, descriptor_index),
        IOCpTag::Module { name_index } => raw_utf8_error(raw, name_index),
        IOCpTag::Package { name_index } => raw_utf8_error(raw, name_index),
        IOCpTag::FieldRef { name_and_ty_index, .. } => raw_name_and_type_error(
            raw,
            name_and_ty_index,
        ),
        IOCpTag::MethodRef { name_and_ty_index, .. } => raw_name_and_type_error(
            raw,
            name_and_ty_index,
        ),
        IOCpTag::InterfaceMethodRef { name_and_ty_index, .. } => raw_name_and_type_error(
            raw,
            name_and_ty_index,
        ),
        IOCpTag::InvokeDynamic { name_and_ty_index, .. } => raw_name_and_type_error(
            raw,
            name_and_ty_index,
        ),
        IOCpTag::NameAndType { name_index, descriptor_index } => {
            if raw_utf8_error(raw, name_index) is Some {
                raw_utf8_error(raw, name_index)
            } else {
                raw_utf8_error(raw, descriptor_index)
            }
        },
        IOCpTag::MethodHandle { reference_kind, reference_index } => {
            if !(1 <= reference_kind <= 9) {
                Some(IRClassfileError::InvalidReferenceKind(reference_kind))
            } else {
                raw_member_error(raw, reference_kind, reference_index)
            }
        },
        _ => None,
    }
}

/// `e` is the lifted form of slot `k` (from 0) of the raw pool.
pub open spec fn lifts_to(raw: Seq<IOCpTag>, k: int, e: IRCpTag) -> bool {
    match raw[k] {
        IOCpTag::Utf8 { bytes, .. } => match e {
            IRCpTag::Utf8(s) => mutf8_decode(bytes@) == Ok::<Seq<char>, MUTFError>(s@),
            _ => false,
        },
        IOCpTag::Integer { bytes } => e == IRCpTag::Integer(u32_at(bytes@, 0) as i32),
        IOCpTag::Float { bytes } => e == IRCpTag::Float(u32_at(bytes@, 0)),
        IOCpTag::Long { bytes } => e == IRCpTag::Long(u64_at(bytes@, 0) as i64),
        IOCpTag::Double { bytes } => e == IRCpTag::Double(u64_at(bytes@, 0)),
        IOCpTag::Class { name_index } => match e {
            IRCpTag::Class(r) => raw_utf8_ref(raw, name_index, r),
            _ => false,
        },
        IOCpTag::String { utf8_index } => match e {
            IRCpTag::String(r) => raw_utf8_ref(raw, utf8_index, r),
            _ => false,
        },
        IOCpTag::MethodType { descriptor_index } => match e {
            IRCpTag::MethodType(r) => raw_utf8_ref(raw, descriptor_index, r),
            _ => false,
        },
        IOCpTag::Module { name_index } => match e {
            IRCpTag::Module { name } => raw_utf8_ref(raw, name_index, name),
            _ => false,
        },
        IOCpTag::Package { name_index } => match e {
            IRCpTag::Package { name } => raw_utf8_ref(raw, name_index, name),
            _ => false,
        },
        IOCpTag::FieldRef { .. } => raw_member(raw, (k + 1) as u16, e),
        IOCpTag::MethodRef { .. } => raw_member(raw, (k + 1) as u16, e),
        IOCpTag::InterfaceMethodRef { .. } => raw_member(raw, (k + 1) as u16, e),
        IOCpTag::NameAndType { name_index, descriptor_index } => match e {
            IRCpTag::NameAndType { name, descriptor } => raw_utf8_ref(raw, name_index, name)
                && raw_utf8_ref(raw, descriptor_index, descriptor),
            _ => false,
        },
        IOCpTag::MethodHandle { reference_kind, reference_index } => match e {
            IRCpTag::MethodHandle { ref_kind, ref_index, ref_tag } => ref_kind
                == IRMethodRefKind::spec_from(reference_kind) && ref_index == reference_index
                && raw_member(raw, reference_index, *ref_tag),
            _ => false,
        },
        IOCpTag::InvokeDynamic { bootstrap_method_attr_index, name_and_ty_index } => match e {
            IRCpTag::InvokeDynamic { bootstrap_method_attr_index: b, name_and_ty } => b
                == bootstrap_method_attr_index && raw_name_and_type_ref(
                raw,
                name_and_ty_index,
                name_and_ty,
            ),
            _ => false,
        },
        IOCpTag::Reserved => e is Reserved,
    }
}

/// `ir` is the raw pool lifted slot by slot.
pub open spec fn pool_lifted(raw: Seq<IOCpTag>, ir: Seq<IRCpTag>) -> bool {
    &&& ir.len() == raw.len()
    &&& forall|k: int| 0 <= k < raw.len() ==> #[trigger] lifts_to(raw, k, ir[k])
}

/// Relies on `Rc::clone`: the copy is another handle on the same string.
#[verifier::external_body]
fn share(s: &Rc<String>) -> (r: Rc<String>)
    ensures
        r == *s,
{
    Rc::clone(s)
}

/// The reference to the `Utf8` slot `n` of the raw pool: taken from the
/// lifted prefix `formed` when the slot lies there, decoded otherwise.
fn raw_utf8(raw: &Vec<IOCpTag>, formed: &Vec<IRCpTag>, n: u16) -> (r: Result<
    CPUtf8Ref,
    IRClassfileError,
>)
    requires
        formed@.len() <= raw@.len(),
        forall|j: int| 0 <= j < formed@.len() ==> #[trigger] lifts_to(raw@, j, formed@[j]),
    ensures
        match r {
            Ok(u) => raw_utf8_ref(raw@, n, u) && raw_utf8_error(raw@, n) is None,
            Err(e) => raw_utf8_error(raw@, n) == Some(e),
        },
{
    if n == 0 || n as usize > raw.len() {
        return Err(IRClassfileError::IndexOutOfRange { index: n, size: raw.len() });
    }
    let i = (n - 1) as usize;
    match &raw[i] {
        IOCpTag::Utf8 { bytes, .. } => {
            if i < formed.len() {
                assert(lifts_to(raw@, i as int, formed@[i as int]));
                match &formed[i] {
                    IRCpTag::Utf8(s) => Ok(CPUtf8Ref { data: share(s), index: n }),
                    _ => {
                        assert(false);
                        Err(IRClassfileError::TrailingBytes)
                    },
                }
            } else {
                match decode(bytes.as_slice()) {
                    Ok(s) => Ok(CPUtf8Ref { data: Rc::new(s), index: n }),
                    Err(e) => Err(IRClassfileError::Mutf8(e)),
                }
            }
        },
        t => Err(IRClassfileError::WrongReferent { expected: 1, got: t.id() }),
    }
}


/// The reference to the `NameAndType` slot `n` of the raw pool.
fn raw_name_and_type(raw: &Vec<IOCpTag>, formed: &Vec<IRCpTag>, n: u16) -> (r: Result<
    CPNameAndTypeRef,
    IRClassfileError,
>)
    requires
        formed@.len() <= raw@.len(),
        forall|j: int| 0 <= j < formed@.len() ==> #[trigger] lifts_to(raw@, j, formed@[j]),
    ensures
        match r {
            Ok(t) => raw_name_and_type_ref(raw@, n, t) && raw_name_and_type_error(raw@, n) is None,
            Err(e) => raw_name_and_type_error(raw@, n) == Some(e),
        },
{
    if n == 0 || n as usize > raw.len() {
        return Err(IRClassfileError::IndexOutOfRange { index: n, size: raw.len() });
    }
    match &raw[(n - 1) as usize] {
        IOCpTag::NameAndType { name_index, descriptor_index } => {
            let name = raw_utf8(raw, formed, *name_index)?;
            let ty = raw_utf8(raw, formed, *descriptor_index)?;
            Ok(CPNameAndTypeRef { index: n, name, ty })
        },
        t => Err(IRClassfileError::WrongReferent { expected: 12, got: t.id() }),
    }
}

/// The lifted field, method or interface-method slot `n` of the raw pool,
/// as the target of a handle of kind `kind`.
fn raw_member_entry(raw: &Vec<IOCpTag>, formed: &Vec<IRCpTag>, kind: u8, n: u16) -> (r: Result<
    IRCpTag,
    IRClassfileError,
>)
    requires
        formed@.len() <= raw@.len(),
        forall|j: int| 0 <= j < formed@.len() ==> #[trigger] lifts_to(raw@, j, formed@[j]),
    ensures
        match r {
            Ok(t) => raw_member(raw@, n, t) && raw_member_error(raw@, kind, n) is None,
            Err(e) => raw_member_error(raw@, kind, n) == Some(e),
        },
{
    if n == 0 || n as usize > raw.len() {
        return Err(IRClassfileError::IndexOutOfRange { index: n, size: raw.len() });
    }
    let target = &raw[(n - 1) as usize];
    let tag = target.id();
    let expected: u8 = if kind <= 4 {
        9
    } else if kind == 9 {
        11
    } else {
        10
    };
    if !(tag == expected || ((kind == 6 || kind == 7) && tag == 11)) {
        return Err(IRClassfileError::WrongReferent { expected, got: tag });
    }
    match target {
        IOCpTag::FieldRef { class_index, name_and_ty_index } => {
            let name_and_ty = raw_name_and_type(raw, formed, *name_and_ty_index)?;
            Ok(IRCpTag::FieldRef { class_index: *class_index, name_and_ty })
        },
        IOCpTag::MethodRef { class_index, name_and_ty_index } => {
            let name_and_ty = raw_name_and_type(raw, formed, *name_and_ty_index)?;
            Ok(IRCpTag::MethodRef { class_index: *class_index, name_and_ty })
        },
        IOCpTag::InterfaceMethodRef { class_index, name_and_ty_index } => {
            let name_and_ty = raw_name_and_type(raw, formed, *name_and_ty_index)?;
            Ok(IRCpTag::InterfaceMethodRef { class_index: *class_index, name_and_ty })
        },
        _ => {
            assert(false);
            Err(IRClassfileError::TrailingBytes)
        },
    }
}

/// The big-endian value of four bytes.
fn be_u32(b: &[u8; 4]) -> (r: u32)
    ensures
        r == u32_at(b@, 0),
{
    (b[0] as u32) * 0x100_0000 + (b[1] as u32) * 0x1_0000 + (b[2] as u32) * 0x100 + b[3] as u32
}

/// The big-endian value of eight bytes.
fn be_u64(b: &[u8; 8]) -> (r: u64)
    ensures
        r == u64_at(b@, 0),
{
    let hi = (b[0] as u32) * 0x100_0000 + (b[1] as u32) * 0x1_0000 + (b[2] as u32) * 0x100
        + b[3] as u32;
    let lo = (b[4] as u32) * 0x100_0000 + (b[5] as u32) * 0x1_0000 + (b[6] as u32) * 0x100
        + b[7] as u32;
    (hi as u64) * 0x1_0000_0000 + lo as u64
}

impl IRCpTag {
    /// Lifts slot `k` (from 0) of the raw pool. A reference to an earlier
    /// slot shares what `formed`, the slots lifted so far, holds; one to a
    /// later slot is resolved from the raw entry itself.
    fn parse_tag(raw: &Vec<IOCpTag>, formed: &Vec<IRCpTag>, k: usize) -> (r: Result<
        IRCpTag,
        IRClassfileError,
    >)
        requires
            k < raw@.len(),
            raw@.len() <= u16::MAX,
            formed@.len() <= raw@.len(),
            forall|j: int| 0 <= j < formed@.len() ==> #[trigger] lifts_to(raw@, j, formed@[j]),
        ensures
            match r {
                Ok(e) => lifts_to(raw@, k as int, e) && entry_error(raw@, k as int) is None,
                Err(e) => entry_error(raw@, k as int) == Some(e),
            },
    {
        match &raw[k] {
            IOCpTag::Utf8 { bytes, .. } => match decode(bytes.as_slice()) {
                Ok(s) => Ok(IRCpTag::Utf8(Rc::new(s))),
                Err(e) => Err(IRClassfileError::Mutf8(e)),
            },
            IOCpTag::Integer { bytes } => Ok(IRCpTag::Integer(be_u32(bytes) as i32)),
            IOCpTag::Float { bytes } => Ok(IRCpTag::Float(be_u32(bytes))),
            IOCpTag::Long { bytes } => Ok(IRCpTag::Long(be_u64(bytes) as i64)),
            IOCpTag::Double { bytes } => Ok(IRCpTag::Double(be_u64(bytes))),
            IOCpTag::Class { name_index } => Ok(
                IRCpTag::Class(raw_utf8(raw, formed, *name_index)?),
            ),
            IOCpTag::String { utf8_index } => Ok(
                IRCpTag::String(raw_utf8(raw, formed, *utf8_index)?),
            ),
            IOCpTag::MethodType { descriptor_index } => Ok(
                IRCpTag::MethodType(raw_utf8(raw, formed, *descriptor_index)?),
            ),
            IOCpTag::Module { name_index } => Ok(
                IRCpTag::Module { name: raw_utf8(raw, formed, *name_index)? },
            ),
            IOCpTag::Package { name_index } => Ok(
                IRCpTag::Package { name: raw_utf8(raw, formed, *name_index)? },
            ),
            IOCpTag::FieldRef { .. } | IOCpTag::MethodRef { .. }
            | IOCpTag::InterfaceMethodRef { .. } => {
                let kind: u8 = match &raw[k] {
                    IOCpTag::FieldRef { .. } => 1,
                    IOCpTag::MethodRef { .. } => 5,
                    _ => 9,
                };
                let e = raw_member_entry(raw, formed, kind, (k + 1) as u16);
                proof {
                    assert(raw@[(k + 1) as u16 - 1] == raw@[k as int]);
                }
                e
            },
            IOCpTag::NameAndType { name_index, descriptor_index } => {
                let name = raw_utf8(raw, formed, *name_index)?;
                let descriptor = raw_utf8(raw, formed, *descriptor_index)?;
                Ok(IRCpTag::NameAndType { name, descriptor })
            },
            IOCpTag::MethodHandle { reference_kind, reference_index } => {
                if *reference_kind < 1 || *reference_kind > 9 {
                    return Err(IRClassfileError::InvalidReferenceKind(*reference_kind));
                }
                let target = raw_member_entry(raw, formed, *reference_kind, *reference_index)?;
                Ok(
                    IRCpTag::MethodHandle {
                        ref_kind: IRMethodRefKind::from(*reference_kind),
                        ref_index: *reference_index,
                        ref_tag: Box::new(target),
                    },
                )
            },
            IOCpTag::InvokeDynamic { bootstrap_method_attr_index, name_and_ty_index } => {
                let name_and_ty = raw_name_and_type(raw, formed, *name_and_ty_index)?;
                Ok(
                    IRCpTag::InvokeDynamic {
                        bootstrap_method_attr_index: *bootstrap_method_attr_index,
                        name_and_ty,
                    },
                )
            },
            IOCpTag::Reserved => Ok(IRCpTag::Reserved),
        }
    }

    /// Lifts the whole pool in order. It fails exactly when some slot cannot
    /// be lifted, with the error of the first such slot.
    pub fn from_io(raw_tags: Vec<IOCpTag>) -> (r: Result<Vec<IRCpTag>, IRClassfileError>)
        requires
            raw_tags@.len() <= u16::MAX,
        ensures
            match r {
                Ok(ir) => pool_lifted(raw_tags@, ir@) && forall|k: int|
                    0 <= k < raw_tags@.len() ==> #[trigger] entry_error(raw_tags@, k) is None,
                Err(e) => exists|k: int|
                    0 <= k < raw_tags@.len() && entry_error(raw_tags@, k) == Some(e) && forall|
                        j: int,
                    |
                        0 <= j < k ==> #[trigger] entry_error(raw_tags@, j) is None,
            },
    {
        let mut res: Vec<IRCpTag> = Vec::new();
        let mut k: usize = 0;
        while k < raw_tags.len()
            invariant
                raw_tags@.len() <= u16::MAX,
                k <= raw_tags@.len(),
                res@.len() == k,
                forall|j: int| 0 <= j < k ==> #[trigger] lifts_to(raw_tags@, j, res@[j]),
                forall|j: int| 0 <= j < k ==> #[trigger] entry_error(raw_tags@, j) is None,
            decreases raw_tags@.len() - k,
        {
            let tag = match IRCpTag::parse_tag(&raw_tags, &res, k) {
                Ok(t) => t,
                Err(e) => {
                    assert(entry_error(raw_tags@, k as int) == Some(e));
                    return Err(e);
                },
            };
            res.push(tag);
            k = k + 1;
        }
        Ok(res)
    }
}


/// Why slot `n` of the typed pool cannot be taken as an entry with tag
/// `expected`, if it cannot.
pub open spec fn ref_error(ir: Seq<IRCpTag>, n: u16, expected: u8) -> Option<IRClassfileError> {
    if !(1 <= n <= ir.len()) {
        Some(out_of_range(n, ir.len() as int))
    } else if ir[n - 1].spec_id() != expected {
        Some(IRClassfileError::WrongReferent { expected, got: ir[n - 1].spec_id() })
    } else {
        None
    }
}

/// `r` refers to the `Utf8` slot `n` of the typed pool and carries its text.
pub open spec fn utf8_ref_in(ir: Seq<IRCpTag>, n: u16, r: CPUtf8Ref) -> bool {
    &&& r.index == n
    &&& 1 <= n <= ir.len()
    &&& match ir[n - 1] {
        IRCpTag::Utf8(s) => r.data@ == s@,
        _ => false,
    }
}

/// Two references to `Utf8` entries name the same slot and text.
pub open spec fn same_utf8(a: CPUtf8Ref, b: CPUtf8Ref) -> bool {
    a.index == b.index && a.data@ == b.data@
}

/// `r` refers to the `Class` slot `n` of the typed pool and carries the
/// reference that the slot holds.
pub open spec fn class_ref_in(ir: Seq<IRCpTag>, n: u16, r: CPClassRef) -> bool {
    &&& r.index == n
    &&& 1 <= n <= ir.len()
    &&& match ir[n - 1] {
        IRCpTag::Class(u) => same_utf8(r.data, u),
        _ => false,
    }
}

/// `r` refers to the `NameAndType` slot `n` of the typed pool and carries
/// the two references that the slot holds.
pub open spec fn name_and_type_ref_in(ir: Seq<IRCpTag>, n: u16, r: CPNameAndTypeRef) -> bool {
    &&& r.index == n
    &&& 1 <= n <= ir.len()
    &&& match ir[n - 1] {
        IRCpTag::NameAndType { name, descriptor } => same_utf8(r.name, name) && same_utf8(
            r.ty,
            descriptor,
        ),
        _ => false,
    }
}

/// `t`, the target of a method handle, agrees with slot `n` of the typed
/// pool: same kind, class index and name-and-type reference.
pub open spec fn member_in(ir: Seq<IRCpTag>, n: u16, t: IRCpTag) -> bool {
    &&& 1 <= n <= ir.len()
    &&& match (ir[n - 1], t) {
        (
            IRCpTag::FieldRef { class_index: c1, name_and_ty: a },
            IRCpTag::FieldRef { class_index: c2, name_and_ty: b },
        ) => c1 == c2 && a.index == b.index && name_and_type_ref_in(ir, b.index, b),
        (
            IRCpTag::MethodRef { class_index: c1, name_and_ty: a },
            IRCpTag::MethodRef { class_index: c2, name_and_ty: b },
        ) => c1 == c2 && a.index == b.index && name_and_type_ref_in(ir, b.index, b),
        (
            IRCpTag::InterfaceMethodRef { class_index: c1, name_and_ty: a },
            IRCpTag::InterfaceMethodRef { class_index: c2, name_and_ty: b },
        ) => c1 == c2 && a.index == b.index && name_and_type_ref_in(ir, b.index, b),
        _ => false,
    }
}

/// Every reference held by the entry `e` carries the index of a slot of the
/// typed pool and agrees with what that slot holds.
pub open spec fn entry_refs_in(ir: Seq<IRCpTag>, e: IRCpTag) -> bool {
    match e {
        IRCpTag::Class(r) => utf8_ref_in(ir, r.index, r),
        IRCpTag::String(r) => utf8_ref_in(ir, r.index, r),
        IRCpTag::MethodType(r) => utf8_ref_in(ir, r.index, r),
        IRCpTag::Module { name } => utf8_ref_in(ir, name.index, name),
        IRCpTag::Package { name } => utf8_ref_in(ir, name.index, name),
        IRCpTag::NameAndType { name, descriptor } => utf8_ref_in(ir, name.index, name)
            && utf8_ref_in(ir, descriptor.index, descriptor),
        IRCpTag::FieldRef { name_and_ty, .. } => name_and_type_ref_in(
            ir,
            name_and_ty.index,
            name_and_ty,
        ),
        IRCpTag::MethodRef { name_and_ty, .. } => name_and_type_ref_in(
            ir,
            name_and_ty.index,
            name_and_ty,
        ),
        IRCpTag::InterfaceMethodRef { name_and_ty, .. } => name_and_type_ref_in(
            ir,
            name_and_ty.index,
            name_and_ty,
        ),
        IRCpTag::InvokeDynamic { name_and_ty, .. } => name_and_type_ref_in(
            ir,
            name_and_ty.index,
            name_and_ty,
        ),
        IRCpTag::MethodHandle { ref_index, ref_tag, .. } => member_in(ir, ref_index, *ref_tag),
        _ => true,
    }
}

proof fn lemma_utf8_ref_in(raw: Seq<IOCpTag>, ir: Seq<IRCpTag>, n: u16, r: CPUtf8Ref)
    requires
        pool_lifted(raw, ir),
        raw_utf8_ref(raw, n, r),
    ensures
        utf8_ref_in(ir, n, r),
{
    assert(lifts_to(raw, n - 1, ir[n - 1]));
}

proof fn lemma_name_and_type_ref_in(
    raw: Seq<IOCpTag>,
    ir: Seq<IRCpTag>,
    n: u16,
    r: CPNameAndTypeRef,
)
    requires
        pool_lifted(raw, ir),
        raw_name_and_type_ref(raw, n, r),
    ensures
        name_and_type_ref_in(ir, n, r),
{
    assert(lifts_to(raw, n - 1, ir[n - 1]));
    if let IOCpTag::NameAndType { name_index, descriptor_index } = raw[n - 1] {
        assert(lifts_to(raw, name_index - 1, ir[name_index - 1]));
        assert(lifts_to(raw, descriptor_index - 1, ir[descriptor_index - 1]));
    }
}

proof fn lemma_member_in(raw: Seq<IOCpTag>, ir: Seq<IRCpTag>, n: u16, t: IRCpTag)
    requires
        pool_lifted(raw, ir),
        raw_member(raw, n, t),
    ensures
        member_in(ir, n, t),
{
    assert(lifts_to(raw, n - 1, ir[n - 1]));
    match t {
        IRCpTag::FieldRef { name_and_ty, .. } => lemma_name_and_type_ref_in(
            raw,
            ir,
            name_and_ty.index,
            name_and_ty,
        ),
        IRCpTag::MethodRef { name_and_ty, .. } => lemma_name_and_type_ref_in(
            raw,
            ir,
            name_and_ty.index,
            name_and_ty,
        ),
        IRCpTag::InterfaceMethodRef { name_and_ty, .. } => lemma_name_and_type_ref_in(
            raw,
            ir,
            name_and_ty.index,
            name_and_ty,
        ),
        _ => {},
    }
}

/// In a lifted pool every reference held by an entry carries the index of
/// its target slot, and what it carries is what that slot holds; slot
/// numbering counts the reserved slot after each `Long` and `Double`.
pub proof fn lemma_lifted_refs_agree(raw: Seq<IOCpTag>, ir: Seq<IRCpTag>)
    requires
        pool_lifted(raw, ir),
    ensures
        forall|k: int| 0 <= k < ir.len() ==> #[trigger] entry_refs_in(ir, ir[k]),
{
    assert forall|k: int| 0 <= k < ir.len() implies #[trigger] entry_refs_in(ir, ir[k]) by {
        assert(lifts_to(raw, k, ir[k]));
        match ir[k] {
            IRCpTag::Class(r) => lemma_utf8_ref_in(raw, ir, r.index, r),
            IRCpTag::String(r) => lemma_utf8_ref_in(raw, ir, r.index, r),
            IRCpTag::MethodType(r) => lemma_utf8_ref_in(raw, ir, r.index, r),
            IRCpTag::Module { name } => lemma_utf8_ref_in(raw, ir, name.index, name),
            IRCpTag::Package { name } => lemma_utf8_ref_in(raw, ir, name.index, name),
            IRCpTag::NameAndType { name, descriptor } => {
                lemma_utf8_ref_in(raw, ir, name.index, name);
                lemma_utf8_ref_in(raw, ir, descriptor.index, descriptor);
            },
            IRCpTag::FieldRef { name_and_ty, .. } => lemma_name_and_type_ref_in(
                raw,
                ir,
                name_and_ty.index,
                name_and_ty,
            ),
            IRCpTag::MethodRef { name_and_ty, .. } => lemma_name_and_type_ref_in(
                raw,
                ir,
                name_and_ty.index,
                name_and_ty,
            ),
            IRCpTag::InterfaceMethodRef { name_and_ty, .. } => lemma_name_and_type_ref_in(
                raw,
                ir,
                name_and_ty.index,
                name_and_ty,
            ),
            IRCpTag::InvokeDynamic { name_and_ty, .. } => lemma_name_and_type_ref_in(
                raw,
                ir,
                name_and_ty.index,
                name_and_ty,
            ),
            IRCpTag::MethodHandle { ref_index, ref_tag, .. } => lemma_member_in(
                raw,
                ir,
                ref_index,
                *ref_tag,
            ),
            _ => {},
        }
    }
}


/// Slot `index` of the typed pool, when it holds an entry with tag
/// `expected`.
fn slot(cp: &[IRCpTag], index: u16, expected: u8) -> (r: Result<&IRCpTag, IRClassfileError>)
    ensures
        match r {
            Ok(t) => ref_error(cp@, index, expected) is None && *t == cp@[index - 1],
            Err(e) => ref_error(cp@, index, expected) == Some(e),
        },
{
    if index == 0 || index as usize > cp.len() {
        return Err(IRClassfileError::IndexOutOfRange { index, size: cp.len() });
    }
    let t = &cp[(index - 1) as usize];
    let got = t.id();
    if got != expected {
        return Err(IRClassfileError::WrongReferent { expected, got });
    }
    Ok(t)
}

impl CPUtf8Ref {
    /// Another reference to the same slot, sharing the same text.
    pub fn share(&self) -> (r: CPUtf8Ref)
        ensures
            r == *self,
    {
        CPUtf8Ref { data: share(&self.data), index: self.index }
    }

    /// The reference to slot `index`, which holds `tag`.
    pub fn new(index: u16, tag: &IRCpTag) -> (r: Result<CPUtf8Ref, IRClassfileError>)
        ensures
            match tag {
                IRCpTag::Utf8(s) => r matches Ok(u) && u.index == index && u.data@ == s@,
                _ => r == Err::<CPUtf8Ref, IRClassfileError>(
                    IRClassfileError::WrongReferent { expected: 1, got: tag.spec_id() },
                ),
            },
    {
        match tag {
            IRCpTag::Utf8(s) => Ok(CPUtf8Ref { data: share(s), index }),
            _ => Err(IRClassfileError::WrongReferent { expected: 1, got: tag.id() }),
        }
    }

    /// The reference to the `Utf8` slot `index` of the typed pool.
    pub fn from_cp(cp: &[IRCpTag], index: u16) -> (r: Result<CPUtf8Ref, IRClassfileError>)
        ensures
            match r {
                Ok(u) => utf8_ref_in(cp@, index, u),
                Err(e) => ref_error(cp@, index, 1) == Some(e),
            },
            r is Ok <==> ref_error(cp@, index, 1) is None,
    {
        let t = slot(cp, index, 1)?;
        CPUtf8Ref::new(index, t)
    }
}

impl CPClassRef {
    /// Another reference to the same slot, sharing the same text.
    pub fn share(&self) -> (r: CPClassRef)
        ensures
            r == *self,
    {
        CPClassRef { data: self.data.share(), index: self.index }
    }

    /// The reference to slot `index`, which holds `tag`.
    pub fn new(index: u16, tag: &IRCpTag) -> (r: Result<CPClassRef, IRClassfileError>)
        ensures
            match tag {
                IRCpTag::Class(u) => r matches Ok(c) && c.index == index && c.data == u,
                _ => r == Err::<CPClassRef, IRClassfileError>(
                    IRClassfileError::WrongReferent { expected: 7, got: tag.spec_id() },
                ),
            },
    {
        match tag {
            IRCpTag::Class(u) => Ok(CPClassRef { data: u.share(), index }),
            _ => Err(IRClassfileError::WrongReferent { expected: 7, got: tag.id() }),
        }
    }

    /// The reference to the `Class` slot `index` of the typed pool.
    pub fn from_cp(cp: &[IRCpTag], index: u16) -> (r: Result<CPClassRef, IRClassfileError>)
        ensures
            match r {
                Ok(c) => class_ref_in(cp@, index, c),
                Err(e) => ref_error(cp@, index, 7) == Some(e),
            },
            r is Ok <==> ref_error(cp@, index, 7) is None,
    {
        let t = slot(cp, index, 7)?;
        CPClassRef::new(index, t)
    }
}

impl CPNameAndTypeRef {
    /// Another reference to the same slot, sharing the same texts.
    pub fn share(&self) -> (r: CPNameAndTypeRef)
        ensures
            r == *self,
    {
        CPNameAndTypeRef { index: self.index, name: self.name.share(), ty: self.ty.share() }
    }

    /// The reference to slot `index`, which holds `tag`.
    pub fn new(index: u16, tag: &IRCpTag) -> (r: Result<CPNameAndTypeRef, IRClassfileError>)
        ensures
            match tag {
                IRCpTag::NameAndType { name, descriptor } => r matches Ok(t) && t.index == index
                    && t.name == name && t.ty == descriptor,
                _ => r == Err::<CPNameAndTypeRef, IRClassfileError>(
                    IRClassfileError::WrongReferent { expected: 12, got: tag.spec_id() },
                ),
            },
    {
        match tag {
            IRCpTag::NameAndType { name, descriptor } => Ok(
                CPNameAndTypeRef { index, name: name.share(), ty: descriptor.share() },
            ),
            _ => Err(IRClassfileError::WrongReferent { expected: 12, got: tag.id() }),
        }
    }

    /// The reference to the `NameAndType` slot `index` of the typed pool.
    pub fn from_cp(cp: &[IRCpTag], index: u16) -> (r: Result<CPNameAndTypeRef, IRClassfileError>)
        ensures
            match r {
                Ok(t) => name_and_type_ref_in(cp@, index, t),
                Err(e) => ref_error(cp@, index, 12) == Some(e),
            },
            r is Ok <==> ref_error(cp@, index, 12) is None,
    {
        let t = slot(cp, index, 12)?;
        CPNameAndTypeRef::new(index, t)
    }
}

impl CPModuleInfoRef {
    /// The reference to slot `index`, which holds `tag`.
    pub fn new(index: u16, tag: &IRCpTag) -> (r: Result<CPModuleInfoRef, IRClassfileError>)
        ensures
            match tag {
                IRCpTag::Module { name } => r matches Ok(m) && m.index == index && m.data == name,
                _ => r == Err::<CPModuleInfoRef, IRClassfileError>(
                    IRClassfileError::WrongReferent { expected: 19, got: tag.spec_id() },
                ),
            },
    {
        match tag {
            IRCpTag::Module { name } => Ok(CPModuleInfoRef { data: name.share(), index }),
            _ => Err(IRClassfileError::WrongReferent { expected: 19, got: tag.id() }),
        }
    }

    /// The reference to the `Module` slot `index` of the typed pool.
    pub fn from_cp(cp: &[IRCpTag], index: u16) -> (r: Result<CPModuleInfoRef, IRClassfileError>)
        ensures
            match r {
                Ok(m) => m.index == index && 1 <= index <= cp@.len() && match cp@[index - 1] {
                    IRCpTag::Module { name } => m.data == name,
                    _ => false,
                },
                Err(e) => ref_error(cp@, index, 19) == Some(e),
            },
            r is Ok <==> ref_error(cp@, index, 19) is None,
    {
        match slot(cp, index, 19)? {
            IRCpTag::Module { name } => Ok(CPModuleInfoRef { data: name.share(), index }),
            _ => {
                assert(false);
                Err(IRClassfileError::TrailingBytes)
            },
        }
    }
}

impl CPPackageInfoRef {
    /// The reference to slot `index`, which holds `tag`.
    pub fn new(index: u16, tag: &IRCpTag) -> (r: Result<CPPackageInfoRef, IRClassfileError>)
        ensures
            match tag {
                IRCpTag::Package { name } => r matches Ok(m) && m.index == index && m.data == name,
                _ => r == Err::<CPPackageInfoRef, IRClassfileError>(
                    IRClassfileError::WrongReferent { expected: 20, got: tag.spec_id() },
                ),
            },
    {
        match tag {
            IRCpTag::Package { name } => Ok(CPPackageInfoRef { data: name.share(), index }),
            _ => Err(IRClassfileError::WrongReferent { expected: 20, got: tag.id() }),
        }
    }

    /// The reference to the `Package` slot `index` of the typed pool.
    pub fn from_cp(cp: &[IRCpTag], index: u16) -> (r: Result<CPPackageInfoRef, IRClassfileError>)
        ensures
            match r {
                Ok(m) => m.index == index && 1 <= index <= cp@.len() && match cp@[index - 1] {
                    IRCpTag::Package { name } => m.data == name,
                    _ => false,
                },
                Err(e) => ref_error(cp@, index, 20) == Some(e),
            },
            r is Ok <==> ref_error(cp@, index, 20) is None,
    {
        match slot(cp, index, 20)? {
            IRCpTag::Package { name } => Ok(CPPackageInfoRef { data: name.share(), index }),
            _ => {
                assert(false);
                Err(IRClassfileError::TrailingBytes)
            },
        }
    }
}

impl CPFieldRef {
    /// The reference to slot `index`, which holds `tag`, with its class
    /// index resolved to a `Class` slot of `cp`.
    pub fn new(cp: &[IRCpTag], index: u16, tag: &IRCpTag) -> (r: Result<
        CPFieldRef,
        IRClassfileError,
    >)
        ensures
            match tag {
                IRCpTag::FieldRef { class_index, name_and_ty } => match r {
                    Ok(f) => f.index == index && class_ref_in(cp@, *class_index, f.class)
                        && f.name_and_ty == name_and_ty,
                    Err(e) => ref_error(cp@, *class_index, 7) == Some(e),
                },
                _ => r == Err::<CPFieldRef, IRClassfileError>(
                    IRClassfileError::WrongReferent { expected: 9, got: tag.spec_id() },
                ),
            },
    {
        match tag {
            IRCpTag::FieldRef { class_index, name_and_ty } => {
                let class = CPClassRef::from_cp(cp, *class_index)?;
                Ok(CPFieldRef { class, name_and_ty: name_and_ty.share(), index })
            },
            _ => Err(IRClassfileError::WrongReferent { expected: 9, got: tag.id() }),
        }
    }

    /// The reference to the `FieldRef` slot `index` of the typed pool, with
    /// its class index resolved to a `Class` slot.
    pub fn from_cp(cp: &[IRCpTag], index: u16) -> (r: Result<CPFieldRef, IRClassfileError>)
        ensures
            match r {
                Ok(f) => f.index == index && 1 <= index <= cp@.len() && match cp@[index - 1] {
                    IRCpTag::FieldRef { class_index, name_and_ty } => class_ref_in(
                        cp@,
                        class_index,
                        f.class,
                    ) && f.name_and_ty == name_and_ty,
                    _ => false,
                },
                Err(e) => ref_error(cp@, index, 9) == Some(e) || (ref_error(cp@, index, 9) is None
                    && match cp@[index - 1] {
                    IRCpTag::FieldRef { class_index, .. } => ref_error(cp@, class_index, 7) == Some(
                        e,
                    ),
                    _ => false,
                }),
            },
    {
        match slot(cp, index, 9)? {
            IRCpTag::FieldRef { class_index, name_and_ty } => {
                let class = CPClassRef::from_cp(cp, *class_index)?;
                Ok(CPFieldRef { class, name_and_ty: name_and_ty.share(), index })
            },
            _ => {
                assert(false);
                Err(IRClassfileError::TrailingBytes)
            },
        }
    }
}

impl CPMethodRef {
    /// The reference to slot `index`, which holds `tag`, with its class
    /// index resolved to a `Class` slot of `cp`.
    pub fn new(cp: &[IRCpTag], index: u16, tag: &IRCpTag) -> (r: Result<
        CPMethodRef,
        IRClassfileError,
    >)
        ensures
            match tag {
                IRCpTag::MethodRef { class_index, name_and_ty } => match r {
                    Ok(f) => f.index == index && class_ref_in(cp@, *class_index, f.class)
                        && f.name_and_ty == name_and_ty,
                    Err(e) => ref_error(cp@, *class_index, 7) == Some(e),
                },
                _ => r == Err::<CPMethodRef, IRClassfileError>(
                    IRClassfileError::WrongReferent { expected: 10, got: tag.spec_id() },
                ),
            },
    {
        match tag {
            IRCpTag::MethodRef { class_index, name_and_ty } => {
                let class = CPClassRef::from_cp(cp, *class_index)?;
                Ok(CPMethodRef { class, name_and_ty: name_and_ty.share(), index })
            },
            _ => Err(IRClassfileError::WrongReferent { expected: 10, got: tag.id() }),
        }
    }

    /// The reference to the `MethodRef` slot `index` of the typed pool, with
    /// its class index resolved to a `Class` slot.
    pub fn from_cp(cp: &[IRCpTag], index: u16) -> (r: Result<CPMethodRef, IRClassfileError>)
        ensures
            match r {
                Ok(f) => f.index == index && 1 <= index <= cp@.len() && match cp@[index - 1] {
                    IRCpTag::MethodRef { class_index, name_and_ty } => class_ref_in(
                        cp@,
                        class_index,
                        f.class,
                    ) && f.name_and_ty == name_and_ty,
                    _ => false,
                },
                Err(e) => ref_error(cp@, index, 10) == Some(e) || (ref_error(cp@, index, 10) is None
                    && match cp@[index - 1] {
                    IRCpTag::MethodRef { class_index, .. } => ref_error(cp@, class_index, 7)
                        == Some(e),
                    _ => false,
                }),
            },
    {
        match slot(cp, index, 10)? {
            IRCpTag::MethodRef { class_index, name_and_ty } => {
                let class = CPClassRef::from_cp(cp, *class_index)?;
                Ok(CPMethodRef { class, name_and_ty: name_and_ty.share(), index })
            },
            _ => {
                assert(false);
                Err(IRClassfileError::TrailingBytes)
            },
        }
    }
}

impl CPInvokeDynamicRef {
    /// The reference to slot `index`, which holds `tag`.
    pub fn new(index: u16, tag: &IRCpTag) -> (r: Result<CPInvokeDynamicRef, IRClassfileError>)
        ensures
            match tag {
                IRCpTag::InvokeDynamic { bootstrap_method_attr_index, name_and_ty } => r matches Ok(
                    d,
                ) && d.index == index && d.bootstrap_method_attr_index
                    == bootstrap_method_attr_index && d.name_and_ty == name_and_ty,
                _ => r == Err::<CPInvokeDynamicRef, IRClassfileError>(
                    IRClassfileError::WrongReferent { expected: 18, got: tag.spec_id() },
                ),
            },
    {
        match tag {
            IRCpTag::InvokeDynamic { bootstrap_method_attr_index, name_and_ty } => Ok(
                CPInvokeDynamicRef {
                    bootstrap_method_attr_index: *bootstrap_method_attr_index,
                    name_and_ty: name_and_ty.share(),
                    index,
                },
            ),
            _ => Err(IRClassfileError::WrongReferent { expected: 18, got: tag.id() }),
        }
    }

    /// The reference to the `InvokeDynamic` slot `index` of the typed pool.
    pub fn from_cp(cp: &[IRCpTag], index: u16) -> (r: Result<CPInvokeDynamicRef, IRClassfileError>)
        ensures
            match r {
                Ok(d) => d.index == index && 1 <= index <= cp@.len() && match cp@[index - 1] {
                    IRCpTag::InvokeDynamic { bootstrap_method_attr_index, name_and_ty } =>
                        d.bootstrap_method_attr_index == bootstrap_method_attr_index
                            && d.name_and_ty == name_and_ty,
                    _ => false,
                },
                Err(e) => ref_error(cp@, index, 18) == Some(e),
            },
            r is Ok <==> ref_error(cp@, index, 18) is None,
    {
        match slot(cp, index, 18)? {
            IRCpTag::InvokeDynamic { bootstrap_method_attr_index, name_and_ty } => Ok(
                CPInvokeDynamicRef {
                    bootstrap_method_attr_index: *bootstrap_method_attr_index,
                    name_and_ty: name_and_ty.share(),
                    index,
                },
            ),
            _ => {
                assert(false);
                Err(IRClassfileError::TrailingBytes)
            },
        }
    }
}


impl IRCpTag {
    /// A copy of the entry; texts are shared, not copied.
    pub fn duplicate(&self) -> (r: IRCpTag)
        ensures
            r == *self,
        decreases self,
    {
        match self {
            IRCpTag::Utf8(s) => IRCpTag::Utf8(share(s)),
            IRCpTag::Integer(v) => IRCpTag::Integer(*v),
            IRCpTag::Float(v) => IRCpTag::Float(*v),
            IRCpTag::Long(v) => IRCpTag::Long(*v),
            IRCpTag::Double(v) => IRCpTag::Double(*v),
            IRCpTag::Class(u) => IRCpTag::Class(u.share()),
            IRCpTag::String(u) => IRCpTag::String(u.share()),
            IRCpTag::FieldRef { class_index, name_and_ty } => IRCpTag::FieldRef {
                class_index: *class_index,
                name_and_ty: name_and_ty.share(),
            },
            IRCpTag::MethodRef { class_index, name_and_ty } => IRCpTag::MethodRef {
                class_index: *class_index,
                name_and_ty: name_and_ty.share(),
            },
            IRCpTag::InterfaceMethodRef { class_index, name_and_ty } =>
                IRCpTag::InterfaceMethodRef {
                class_index: *class_index,
                name_and_ty: name_and_ty.share(),
            },
            IRCpTag::NameAndType { name, descriptor } => IRCpTag::NameAndType {
                name: name.share(),
                descriptor: descriptor.share(),
            },
            IRCpTag::MethodHandle { ref_kind, ref_index, ref_tag } => {
                let inner: &IRCpTag = ref_tag;
                IRCpTag::MethodHandle {
                    ref_kind: *ref_kind,
                    ref_index: *ref_index,
                    ref_tag: Box::new(inner.duplicate()),
                }
            },
            IRCpTag::MethodType(u) => IRCpTag::MethodType(u.share()),
            IRCpTag::InvokeDynamic { bootstrap_method_attr_index, name_and_ty } =>
                IRCpTag::InvokeDynamic {
                bootstrap_method_attr_index: *bootstrap_method_attr_index,
                name_and_ty: name_and_ty.share(),
            },
            IRCpTag::Module { name } => IRCpTag::Module { name: name.share() },
            IRCpTag::Package { name } => IRCpTag::Package { name: name.share() },
            IRCpTag::Reserved => IRCpTag::Reserved,
        }
    }
}

/// `r` is the constant of slot `index`, which holds `tag`: the scalar or
/// text of a double, float, integer, long or `Utf8` slot, and
/// `WrongReferent` for any other kind.
pub open spec fn const_value_of(
    index: u16,
    tag: IRCpTag,
    r: Result<CPConstValueRef, IRClassfileError>,
) -> bool {
    match (tag, r) {
        (IRCpTag::Double(v), Ok(c)) => c.index == index && c.kind
            == CPConstValueRefKind::Double(v),
        (IRCpTag::Float(v), Ok(c)) => c.index == index && c.kind
            == CPConstValueRefKind::Float(v),
        (IRCpTag::Integer(v), Ok(c)) => c.index == index && c.kind
            == CPConstValueRefKind::Int(v),
        (IRCpTag::Long(v), Ok(c)) => c.index == index && c.kind
            == CPConstValueRefKind::Long(v),
        (IRCpTag::Utf8(s), Ok(c)) => c.index == index && c.kind
            == CPConstValueRefKind::String(s),
        (IRCpTag::Double(_), Err(_)) => false,
        (IRCpTag::Float(_), Err(_)) => false,
        (IRCpTag::Integer(_), Err(_)) => false,
        (IRCpTag::Long(_), Err(_)) => false,
        (IRCpTag::Utf8(_), Err(_)) => false,
        (_, Ok(_)) => false,
        (_, Err(e)) => e == IRClassfileError::WrongReferent {
            expected: 3,
            got: tag.spec_id(),
        },
    }
}

impl CPConstValueRef {
    /// The constant of slot `index`, which holds `tag`: an integer, float,
    /// long, double or `Utf8` text.
    pub fn new(index: u16, tag: &IRCpTag) -> (r: Result<CPConstValueRef, IRClassfileError>)
        ensures
            const_value_of(index, *tag, r),
    {
        match tag {
            IRCpTag::Double(v) => Ok(
                CPConstValueRef { index, kind: CPConstValueRefKind::Double(*v) },
            ),
            IRCpTag::Float(v) => Ok(
                CPConstValueRef { index, kind: CPConstValueRefKind::Float(*v) },
            ),
            IRCpTag::Integer(v) => Ok(
                CPConstValueRef { index, kind: CPConstValueRefKind::Int(*v) },
            ),
            IRCpTag::Long(v) => Ok(CPConstValueRef { index, kind: CPConstValueRefKind::Long(*v) }),
            IRCpTag::Utf8(s) => Ok(
                CPConstValueRef { index, kind: CPConstValueRefKind::String(share(s)) },
            ),
            _ => Err(IRClassfileError::WrongReferent { expected: 3, got: tag.id() }),
        }
    }

    /// The constant of slot `index` of the typed pool.
    pub fn from_cp(cp: &[IRCpTag], index: u16) -> (r: Result<CPConstValueRef, IRClassfileError>)
        ensures
            1 <= index <= cp@.len() ==> const_value_of(index, cp@[index - 1], r),
            !(1 <= index <= cp@.len()) ==> r == Err::<CPConstValueRef, IRClassfileError>(
                out_of_range(index, cp@.len() as int),
            ),
    {
        if index == 0 || index as usize > cp.len() {
            return Err(IRClassfileError::IndexOutOfRange { index, size: cp.len() });
        }
        CPConstValueRef::new(index, &cp[(index - 1) as usize])
    }
}

impl CPMethodHandleRef {
    /// The reference to slot `index`, which holds `tag`.
    pub fn new(index: u16, tag: &IRCpTag) -> (r: Result<CPMethodHandleRef, IRClassfileError>)
        ensures
            match tag {
                IRCpTag::MethodHandle { ref_kind, ref_index, ref_tag } => r matches Ok(h) && h.index
                    == index && h.ref_kind == ref_kind && h.ref_index == ref_index && h.ref_tag
                    == ref_tag,
                _ => r == Err::<CPMethodHandleRef, IRClassfileError>(
                    IRClassfileError::WrongReferent { expected: 15, got: tag.spec_id() },
                ),
            },
    {
        match tag {
            IRCpTag::MethodHandle { ref_kind, ref_index, ref_tag } => {
                let inner: &IRCpTag = ref_tag;
                Ok(
                    CPMethodHandleRef {
                        ref_kind: *ref_kind,
                        ref_tag: Box::new(inner.duplicate()),
                        ref_index: *ref_index,
                        index,
                    },
                )
            },
            _ => Err(IRClassfileError::WrongReferent { expected: 15, got: tag.id() }),
        }
    }

    /// The reference to the `MethodHandle` slot `index` of the typed pool.
    pub fn from_cp(cp: &[IRCpTag], index: u16) -> (r: Result<CPMethodHandleRef, IRClassfileError>)
        ensures
            match r {
                Ok(h) => h.index == index && 1 <= index <= cp@.len() && match cp@[index - 1] {
                    IRCpTag::MethodHandle { ref_kind, ref_index, ref_tag } => h.ref_kind == ref_kind
                        && h.ref_index == ref_index && h.ref_tag == ref_tag,
                    _ => false,
                },
                Err(e) => ref_error(cp@, index, 15) == Some(e),
            },
            r is Ok <==> ref_error(cp@, index, 15) is None,
    {
        let t = slot(cp, index, 15)?;
        CPMethodHandleRef::new(index, t)
    }
}

impl CPTagRef {
    /// A copy of slot `index` of the typed pool.
    pub fn from_cp(cp: &[IRCpTag], index: u16) -> (r: Result<CPTagRef, IRClassfileError>)
        ensures
            match r {
                Ok(t) => t.index == index && 1 <= index <= cp@.len() && t.tag == cp@[index - 1],
                Err(e) => e == out_of_range(index, cp@.len() as int) && !(1 <= index <= cp@.len()),
            },
    {
        if index == 0 || index as usize > cp.len() {
            return Err(IRClassfileError::IndexOutOfRange { index, size: cp.len() });
        }
        Ok(CPTagRef { tag: cp[(index - 1) as usize].duplicate(), index })
    }
}


/// Why slot `n` of the raw pool cannot be taken as an entry with tag
/// `expected`, if it cannot.
pub open spec fn raw_ref_error(raw: Seq<IOCpTag>, n: u16, expected: u8) -> Option<
    IRClassfileError,
> {
    if !(1 <= n <= raw.len()) {
        Some(out_of_range(n, raw.len() as int))
    } else if raw[n - 1].spec_id() != expected {
        Some(IRClassfileError::WrongReferent { expected, got: raw[n - 1].spec_id() })
    } else {
        None
    }
}

/// Lifting keeps the kind of every slot, so a reference that fits the raw
/// pool fits the lifted one.
pub proof fn lemma_lifted_ref_error(raw: Seq<IOCpTag>, ir: Seq<IRCpTag>, n: u16, expected: u8)
    requires
        pool_lifted(raw, ir),
        raw.len() < u16::MAX,
    ensures
        ref_error(ir, n, expected) == raw_ref_error(raw, n, expected),
{
    if 1 <= n <= raw.len() {
        let k = n - 1;
        assert(lifts_to(raw, k, ir[k]));
        assert(((k + 1) as u16) == n);
    }
}

} // verus!
