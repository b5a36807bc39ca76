//! The byte-faithful model of a class file: header, constant pool, access
//! flags, this and super class, interfaces, fields, methods and attributes,
//! with raw pool indices and opaque attribute payloads.
use vstd::prelude::*;
use crate::bytes::{
    bytes_at, lemma_bytes_at_split, lemma_concat_item_at, lemma_u16_at_bytes, lemma_u32_at_bytes,
    advanced, concat_bytes, lemma_advanced_chain, u16_at, u16_bytes, u32_at, u32_bytes,
    write_all, write_u16,
    write_u32, write_u8, ByteReader, BytesError,
};

verus! {

/// The first four bytes of every class file.
pub const MAGIC: u32 = 0xCAFEBABE;

/// Why a class file could not be read.
#[derive(Debug, Clone, Copy, PartialEq, Eq, Structural)]
pub enum IOClassfileError {
    /// The first four bytes are not `CAFEBABE`.
    InvalidMagic,
    /// The input ended inside a structure.
    Bytes(BytesError),
    /// A constant-pool entry starts with a tag byte outside the known set.
    UnknownCpTag(u8),
    /// The declared pool count is zero, or ends inside a two-slot entry.
    BadPoolCount,
}

/// The tag bytes that start a constant-pool entry.
pub open spec fn known_cp_tag(b: u8) -> bool {
    b == 1 || (3 <= b <= 12) || b == 15 || b == 16 || (18 <= b <= 20)
}

/// How many bytes the pool entry at `p` of `s` takes, by its tag byte and,
/// for `Utf8`, its length field.
pub open spec fn cp_entry_size(s: Seq<u8>, p: int) -> int {
    let tag = s[p];
    if tag == 1 {
        if p + 3 <= s.len() {
            3 + u16_at(s, p + 1)
        } else {
            3
        }
    } else if tag == 3 || tag == 4 {
        5
    } else if tag == 5 || tag == 6 {
        9
    } else if tag == 15 {
        4
    } else if (9 <= tag <= 12) || tag == 18 {
        5
    } else {
        3
    }
}

/// One slot of the constant pool as it stands in the file. A `Long` or
/// `Double` takes two slots; the second is held by `Reserved`, which has no
/// bytes of its own, so that the slot of an entry is its position plus one.
#[derive(Debug)]
pub enum IOCpTag {
    Utf8 { length: u16, bytes: Vec<u8> },
    Integer { bytes: [u8; 4] },
    Float { bytes: [u8; 4] },
    Long { bytes: [u8; 8] },
    Double { bytes: [u8; 8] },
    Class { name_index: u16 },
    String { utf8_index: u16 },
    FieldRef { class_index: u16, name_and_ty_index: u16 },
    MethodRef { class_index: u16, name_and_ty_index: u16 },
    InterfaceMethodRef { class_index: u16, name_and_ty_index: u16 },
    NameAndType { name_index: u16, descriptor_index: u16 },
    MethodHandle { reference_kind: u8, reference_index: u16 },
    MethodType { descriptor_index: u16 },
    InvokeDynamic { bootstrap_method_attr_index: u16, name_and_ty_index: u16 },
    Module { name_index: u16 },
    Package { name_index: u16 },
    Reserved,
}

impl IOCpTag {
    /// The tag byte of the entry; 0 for the reserved slot, which has none.
    pub open spec fn spec_id(&self) -> u8 {
        match self {
            IOCpTag::Utf8 { .. } => 1,
            IOCpTag::Integer { .. } => 3,
            IOCpTag::Float { .. } => 4,
            IOCpTag::Long { .. } => 5,
            IOCpTag::Double { .. } => 6,
            IOCpTag::Class { .. } => 7,
            IOCpTag::String { .. } => 8,
            IOCpTag::FieldRef { .. } => 9,
            IOCpTag::MethodRef { .. } => 10,
            IOCpTag::InterfaceMethodRef { .. } => 11,
            IOCpTag::NameAndType { .. } => 12,
            IOCpTag::MethodHandle { .. } => 15,
            IOCpTag::MethodType { .. } => 16,
            IOCpTag::InvokeDynamic { .. } => 18,
            IOCpTag::Module { .. } => 19,
            IOCpTag::Package { .. } => 20,
            IOCpTag::Reserved => 0,
        }
    }

    /// A `Long` or a `Double`, which takes two slots.
    pub open spec fn is_wide(&self) -> bool {
        self is Long || self is Double
    }

    /// A `Utf8` entry's stored length is the length of its bytes.
    pub open spec fn wf(&self) -> bool {
        match self {
            IOCpTag::Utf8 { length, bytes } => *length as int == bytes@.len(),
            _ => true,
        }
    }

    /// The bytes of the entry in the file: its tag, then its payload.
    pub open spec fn spec_bytes(&self) -> Seq<u8> {
        match self {
            IOCpTag::Utf8 { length, bytes } => seq![1u8] + u16_bytes(*length) + bytes@,
            IOCpTag::Integer { bytes } => seq![3u8] + bytes@,
            IOCpTag::Float { bytes } => seq![4u8] + bytes@,
            IOCpTag::Long { bytes } => seq![5u8] + bytes@,
            IOCpTag::Double { bytes } => seq![6u8] + bytes@,
            IOCpTag::Class { name_index } => seq![7u8] + u16_bytes(*name_index),
            IOCpTag::String { utf8_index } => seq![8u8] + u16_bytes(*utf8_index),
            IOCpTag::FieldRef { class_index, name_and_ty_index } => seq![9u8] + u16_bytes(
                *class_index,
            ) + u16_bytes(*name_and_ty_index),
            IOCpTag::MethodRef { class_index, name_and_ty_index } => seq![10u8] + u16_bytes(
                *class_index,
            ) + u16_bytes(*name_and_ty_index),
            IOCpTag::InterfaceMethodRef { class_index, name_and_ty_index } => seq![11u8]
                + u16_bytes(*class_index) + u16_bytes(*name_and_ty_index),
            IOCpTag::NameAndType { name_index, descriptor_index } => seq![12u8] + u16_bytes(
                *name_index,
            ) + u16_bytes(*descriptor_index),
            IOCpTag::MethodHandle { reference_kind, reference_index } => seq![15u8, *reference_kind]
                + u16_bytes(*reference_index),
            IOCpTag::MethodType { descriptor_index } => seq![16u8] + u16_bytes(*descriptor_index),
            IOCpTag::InvokeDynamic { bootstrap_method_attr_index, name_and_ty_index } => seq![18u8]
                + u16_bytes(*bootstrap_method_attr_index) + u16_bytes(*name_and_ty_index),
            IOCpTag::Module { name_index } => seq![19u8] + u16_bytes(*name_index),
            IOCpTag::Package { name_index } => seq![20u8] + u16_bytes(*name_index),
            IOCpTag::Reserved => seq![],
        }
    }

    /// The tag byte of the entry; 0 for the reserved slot.
    pub fn id(&self) -> (r: u8)
        ensures
            r == self.spec_id(),
    {
        match self {
            IOCpTag::Utf8 { .. } => 1,
            IOCpTag::Integer { .. } => 3,
            IOCpTag::Float { .. } => 4,
            IOCpTag::Long { .. } => 5,
            IOCpTag::Double { .. } => 6,
            IOCpTag::Class { .. } => 7,
            IOCpTag::String { .. } => 8,
            IOCpTag::FieldRef { .. } => 9,
            IOCpTag::MethodRef { .. } => 10,
            IOCpTag::InterfaceMethodRef { .. } => 11,
            IOCpTag::NameAndType { .. } => 12,
            IOCpTag::MethodHandle { .. } => 15,
            IOCpTag::MethodType { .. } => 16,
            IOCpTag::InvokeDynamic { .. } => 18,
            IOCpTag::Module { .. } => 19,
            IOCpTag::Package { .. } => 20,
            IOCpTag::Reserved => 0,
        }
    }

    /// Reads one entry: its tag byte, then the payload that the tag selects.
    pub fn read(buffer: &mut ByteReader) -> (r: Result<IOCpTag, IOClassfileError>)
        ensures
            final(buffer).data@ == old(buffer).data@,
            match r {
                Ok(t) => t.wf() && !(t is Reserved) && advanced(
                    *old(buffer),
                    *final(buffer),
                    t.spec_bytes(),
                ),
                Err(e) => e == IOClassfileError::Bytes(BytesError::NotEnoughData) || (old(
                    buffer,
                ).pos < old(buffer).data@.len() && e == IOClassfileError::UnknownCpTag(
                    old(buffer).data@[old(buffer).pos as int],
                )),
            },
            old(buffer).pos < old(buffer).data@.len() && !known_cp_tag(
                old(buffer).data@[old(buffer).pos as int],
            ) ==> r == Err::<IOCpTag, IOClassfileError>(
                IOClassfileError::UnknownCpTag(old(buffer).data@[old(buffer).pos as int]),
            ),
            r matches Ok(t) ==> t.spec_bytes().len() == cp_entry_size(
                old(buffer).data@,
                old(buffer).pos as int,
            ),
            r is Ok <==> old(buffer).pos < old(buffer).data@.len() && known_cp_tag(
                old(buffer).data@[old(buffer).pos as int],
            ) && old(buffer).pos + cp_entry_size(old(buffer).data@, old(buffer).pos as int)
                <= old(buffer).data@.len(),
    {
        let ghost r0 = *buffer;
        let tag = read_u8_io(buffer)?;
        let ghost r1 = *buffer;
        let ghost head = seq![tag];
        if tag == 1 {
            let length = read_u16_io(buffer)?;
            let ghost r2 = *buffer;
            let bytes = match buffer.read_n_bytes_vec(length as usize) {
                Ok(b) => b,
                Err(e) => return Err(IOClassfileError::Bytes(e)),
            };
            proof {
                lemma_advanced_chain(r0, r1, r2, head, u16_bytes(length));
                lemma_advanced_chain(r0, r2, *buffer, head + u16_bytes(length), bytes@);
            }
            Ok(IOCpTag::Utf8 { length, bytes })
        } else if 3 <= tag && tag <= 6 {
            let t = if tag <= 4 {
                let bytes = match buffer.read_n_bytes::<4>() {
                    Ok(b) => b,
                    Err(e) => return Err(IOClassfileError::Bytes(e)),
                };
                proof {
                    lemma_advanced_chain(r0, r1, *buffer, head, bytes@);
                }
                if tag == 3 {
                    IOCpTag::Integer { bytes }
                } else {
                    IOCpTag::Float { bytes }
                }
            } else {
                let bytes = match buffer.read_n_bytes::<8>() {
                    Ok(b) => b,
                    Err(e) => return Err(IOClassfileError::Bytes(e)),
                };
                proof {
                    lemma_advanced_chain(r0, r1, *buffer, head, bytes@);
                }
                if tag == 5 {
                    IOCpTag::Long { bytes }
                } else {
                    IOCpTag::Double { bytes }
                }
            };
            Ok(t)
        } else if tag == 7 || tag == 8 || tag == 16 || tag == 19 || tag == 20 {
            let index = read_u16_io(buffer)?;
            proof {
                lemma_advanced_chain(r0, r1, *buffer, head, u16_bytes(index));
            }
            Ok(
                if tag == 7 {
                    IOCpTag::Class { name_index: index }
                } else if tag == 8 {
                    IOCpTag::String { utf8_index: index }
                } else if tag == 16 {
                    IOCpTag::MethodType { descriptor_index: index }
                } else if tag == 19 {
                    IOCpTag::Module { name_index: index }
                } else {
                    IOCpTag::Package { name_index: index }
                },
            )
        } else if tag == 15 {
            let kind = read_u8_io(buffer)?;
            let ghost r2 = *buffer;
            let index = read_u16_io(buffer)?;
            proof {
                lemma_advanced_chain(r0, r1, r2, head, seq![kind]);
                lemma_advanced_chain(r0, r2, *buffer, head + seq![kind], u16_bytes(index));
                assert(head + seq![kind] =~= seq![15u8, kind]);
            }
            Ok(IOCpTag::MethodHandle { reference_kind: kind, reference_index: index })
        } else if (9 <= tag && tag <= 12) || tag == 18 {
            let first = read_u16_io(buffer)?;
            let ghost r2 = *buffer;
            let second = read_u16_io(buffer)?;
            proof {
                lemma_advanced_chain(r0, r1, r2, head, u16_bytes(first));
                lemma_advanced_chain(r0, r2, *buffer, head + u16_bytes(first), u16_bytes(second));
            }
            Ok(
                if tag == 9 {
                    IOCpTag::FieldRef { class_index: first, name_and_ty_index: second }
                } else if tag == 10 {
                    IOCpTag::MethodRef { class_index: first, name_and_ty_index: second }
                } else if tag == 11 {
                    IOCpTag::InterfaceMethodRef { class_index: first, name_and_ty_index: second }
                } else if tag == 12 {
                    IOCpTag::NameAndType { name_index: first, descriptor_index: second }
                } else {
                    IOCpTag::InvokeDynamic {
                        bootstrap_method_attr_index: first,
                        name_and_ty_index: second,
                    }
                },
            )
        } else {
            Err(IOClassfileError::UnknownCpTag(tag))
        }
    }

    /// Appends the bytes of the entry: its tag and payload as stored.
    pub fn write(&self, out: &mut Vec<u8>)
        ensures
            final(out)@ == old(out)@ + self.spec_bytes(),
    {
        let ghost start = out@;
        match self {
            IOCpTag::Utf8 { length, bytes } => {
                write_u8(out, 1);
                write_u16(out, *length);
                write_all(out, bytes.as_slice());
            },
            IOCpTag::Integer { bytes } => {
                write_u8(out, 3);
                write_all(out, bytes.as_slice());
            },
            IOCpTag::Float { bytes } => {
                write_u8(out, 4);
                write_all(out, bytes.as_slice());
            },
            IOCpTag::Long { bytes } => {
                write_u8(out, 5);
                write_all(out, bytes.as_slice());
            },
            IOCpTag::Double { bytes } => {
                write_u8(out, 6);
                write_all(out, bytes.as_slice());
            },
            IOCpTag::Class { name_index } => {
                write_u8(out, 7);
                write_u16(out, *name_index);
            },
            IOCpTag::String { utf8_index } => {
                write_u8(out, 8);
                write_u16(out, *utf8_index);
            },
            IOCpTag::FieldRef { class_index, name_and_ty_index } => {
                write_u8(out, 9);
                write_u16(out, *class_index);
                write_u16(out, *name_and_ty_index);
            },
            IOCpTag::MethodRef { class_index, name_and_ty_index } => {
                write_u8(out, 10);
                write_u16(out, *class_index);
                write_u16(out, *name_and_ty_index);
            },
            IOCpTag::InterfaceMethodRef { class_index, name_and_ty_index } => {
                write_u8(out, 11);
                write_u16(out, *class_index);
                write_u16(out, *name_and_ty_index);
            },
            IOCpTag::NameAndType { name_index, descriptor_index } => {
                write_u8(out, 12);
                write_u16(out, *name_index);
                write_u16(out, *descriptor_index);
            },
            IOCpTag::MethodHandle { reference_kind, reference_index } => {
                write_u8(out, 15);
                write_u8(out, *reference_kind);
                write_u16(out, *reference_index);
            },
            IOCpTag::MethodType { descriptor_index } => {
                write_u8(out, 16);
                write_u16(out, *descriptor_index);
            },
            IOCpTag::InvokeDynamic { bootstrap_method_attr_index, name_and_ty_index } => {
                write_u8(out, 18);
                write_u16(out, *bootstrap_method_attr_index);
                write_u16(out, *name_and_ty_index);
            },
            IOCpTag::Module { name_index } => {
                write_u8(out, 19);
                write_u16(out, *name_index);
            },
            IOCpTag::Package { name_index } => {
                write_u8(out, 20);
                write_u16(out, *name_index);
            },
            IOCpTag::Reserved => {},
        }
        assert(out@ =~= start + self.spec_bytes());
    }
}

fn read_u8_io(buffer: &mut ByteReader) -> (r: Result<u8, IOClassfileError>)
    ensures
        final(buffer).data@ == old(buffer).data@,
        match r {
            Ok(v) => advanced(*old(buffer), *final(buffer), seq![v]) && v == old(
                buffer,
            ).data@[old(buffer).pos as int],
            Err(e) => e == IOClassfileError::Bytes(BytesError::NotEnoughData) && old(buffer).pos
                + 1 > old(buffer).data@.len(),
        },
{
    match buffer.read_u8() {
        Ok(v) => Ok(v),
        Err(e) => Err(IOClassfileError::Bytes(e)),
    }
}

fn read_u16_io(buffer: &mut ByteReader) -> (r: Result<u16, IOClassfileError>)
    ensures
        final(buffer).data@ == old(buffer).data@,
        match r {
            Ok(v) => advanced(*old(buffer), *final(buffer), u16_bytes(v)) && v == u16_at(
                old(buffer).data@,
                old(buffer).pos as int,
            ),
            Err(e) => e == IOClassfileError::Bytes(BytesError::NotEnoughData) && old(buffer).pos
                + 2 > old(buffer).data@.len(),
        },
{
    match buffer.read_u16() {
        Ok(v) => Ok(v),
        Err(e) => Err(IOClassfileError::Bytes(e)),
    }
}


/// An attribute as it stands in the file: a name index, a length, and an
/// opaque payload.
#[derive(Debug)]
pub struct IOAttributeInfo {
    pub attribute_name_index: u16,
    pub attribute_length: u32,
    pub info: Vec<u8>,
}

impl IOAttributeInfo {
    /// The stored length is the length of the payload.
    pub open spec fn wf(&self) -> bool {
        self.attribute_length as int == self.info@.len()
    }

    /// The bytes of the attribute: name index, length as stored, payload.
    pub open spec fn spec_bytes(&self) -> Seq<u8> {
        u16_bytes(self.attribute_name_index) + u32_bytes(self.attribute_length) + self.info@
    }

    /// Reads a name index, a length, and that many payload bytes; fails
    /// exactly when the input ends first.
    pub fn read(buffer: &mut ByteReader) -> (r: Result<IOAttributeInfo, BytesError>)
        ensures
            final(buffer).data@ == old(buffer).data@,
            r matches Ok(a) ==> a.wf() && advanced(*old(buffer), *final(buffer), a.spec_bytes())
                && a.attribute_length == u32_at(old(buffer).data@, old(buffer).pos + 2)
                && a.attribute_name_index == u16_at(old(buffer).data@, old(buffer).pos as int),
            r is Ok <==> old(buffer).pos + 6 <= old(buffer).data@.len() && old(buffer).pos + 6
                + u32_at(old(buffer).data@, old(buffer).pos + 2) <= old(buffer).data@.len(),
    {
        let ghost r0 = *buffer;
        let attribute_name_index = buffer.read_u16()?;
        let ghost r1 = *buffer;
        let attribute_length = buffer.read_u32()?;
        let ghost r2 = *buffer;
        let info = buffer.read_n_bytes_vec(attribute_length as usize)?;
        proof {
            lemma_advanced_chain(
                r0,
                r1,
                r2,
                u16_bytes(attribute_name_index),
                u32_bytes(attribute_length),
            );
            lemma_advanced_chain(
                r0,
                r2,
                *buffer,
                u16_bytes(attribute_name_index) + u32_bytes(attribute_length),
                info@,
            );
        }
        Ok(IOAttributeInfo { attribute_name_index, attribute_length, info })
    }

    /// Appends the bytes of the attribute, the length echoed as stored.
    pub fn write(&self, out: &mut Vec<u8>)
        ensures
            final(out)@ == old(out)@ + self.spec_bytes(),
    {
        let ghost start = out@;
        write_u16(out, self.attribute_name_index);
        write_u32(out, self.attribute_length);
        write_all(out, self.info.as_slice());
        assert(out@ =~= start + self.spec_bytes());
    }
}

/// The bytes of a sequence of attributes, one after the other.
pub open spec fn attributes_bytes(s: Seq<IOAttributeInfo>) -> Seq<u8> {
    concat_bytes(s, |x: IOAttributeInfo| x.spec_bytes())
}

/// Every attribute of `s` is well formed.
pub open spec fn attributes_wf(s: Seq<IOAttributeInfo>) -> bool {
    forall|i: int| 0 <= i < s.len() ==> #[trigger] s[i].wf()
}

/// The bytes of a sequence of `u16` values, one after the other.
pub open spec fn u16s_bytes(s: Seq<u16>) -> Seq<u8> {
    concat_bytes(s, |x: u16| u16_bytes(x))
}

/// The bytes of a field or method: flags, name and descriptor indices, the
/// attribute count as stored, then the attributes.
pub open spec fn member_bytes(
    access_flags: u16,
    name_index: u16,
    descriptor_index: u16,
    attributes_count: u16,
    attributes: Seq<IOAttributeInfo>,
) -> Seq<u8> {
    u16_bytes(access_flags) + u16_bytes(name_index) + u16_bytes(descriptor_index) + u16_bytes(
        attributes_count,
    ) + attributes_bytes(attributes)
}

/// Where a well-formed attribute stands, there are enough bytes for its
/// header and for the length its header gives, which is its own.
proof fn lemma_attribute_at(s: Seq<u8>, p: int, a: IOAttributeInfo)
    requires
        a.wf(),
        bytes_at(s, p, a.spec_bytes()),
    ensures
        p + 6 <= s.len(),
        6 + u32_at(s, p + 2) == a.spec_bytes().len(),
{
    lemma_bytes_at_split(
        s,
        p,
        u16_bytes(a.attribute_name_index) + u32_bytes(a.attribute_length),
        a.info@,
    );
    lemma_bytes_at_split(s, p, u16_bytes(a.attribute_name_index), u32_bytes(a.attribute_length));
    lemma_u32_at_bytes(s, p + 2, a.attribute_length);
}

proof fn lemma_attributes_step(data: Seq<u8>, p: int, w: Seq<IOAttributeInfo>, i: int)
    requires
        attributes_wf(w),
        bytes_at(data, p, attributes_bytes(w)),
        0 <= i < w.len(),
    ensures
        w[i].wf(),
        bytes_at(data, p + attributes_bytes(w.take(i)).len(), w[i].spec_bytes()),
        attributes_bytes(w.take(i + 1)) == attributes_bytes(w.take(i)) + w[i].spec_bytes(),
        p + attributes_bytes(w.take(i)).len() + 6 <= data.len(),
        6 + u32_at(data, p + attributes_bytes(w.take(i)).len() + 2) == w[i].spec_bytes().len(),
{
    let f = |x: IOAttributeInfo| x.spec_bytes();
    assert(attributes_bytes(w) == concat_bytes(w, f));
    lemma_concat_item_at(data, p, w, f, i);
    assert(attributes_bytes(w.take(i)) == concat_bytes(w.take(i), f));
    assert(attributes_bytes(w.take(i + 1)) == concat_bytes(w.take(i + 1), f));
    assert(w[i].wf());
    lemma_attribute_at(data, p + attributes_bytes(w.take(i)).len(), w[i]);
}

/// Reads `count` attributes one after another. Where the input holds the
/// attributes `w`, it reads attributes with their bytes.
#[verifier::rlimit(60)]
fn read_attributes(
    buffer: &mut ByteReader,
    count: u16,
    Ghost(w): Ghost<Seq<IOAttributeInfo>>,
) -> (r: Result<
    Vec<IOAttributeInfo>,
    BytesError,
>)
    requires
        old(buffer).wf(),
    ensures
        final(buffer).data@ == old(buffer).data@,
        r matches Ok(v) ==> v@.len() == count && attributes_wf(v@) && advanced(
            *old(buffer),
            *final(buffer),
            attributes_bytes(v@),
        ),
        w.len() == count && attributes_wf(w) && bytes_at(
            old(buffer).data@,
            old(buffer).pos as int,
            attributes_bytes(w),
        ) ==> (r matches Ok(v) && attributes_bytes(v@) == attributes_bytes(w)),
{
    let ghost r0 = *buffer;
    let ghost aligned = w.len() == count && attributes_wf(w) && bytes_at(
        r0.data@,
        r0.pos as int,
        attributes_bytes(w),
    );
    let mut attributes: Vec<IOAttributeInfo> = Vec::new();
    let mut i: u16 = 0;
    proof {
        assert(r0.data@.subrange(r0.pos as int, r0.pos as int) =~= seq![]);
        assert(w.take(0) =~= seq![]);
    }
    while i < count
        invariant
            r0 == *old(buffer),
            aligned == (w.len() == count && attributes_wf(w) && bytes_at(
                r0.data@,
                r0.pos as int,
                attributes_bytes(w),
            )),
            buffer.data@ == r0.data@,
            i <= count,
            attributes@.len() == i,
            attributes_wf(attributes@),
            advanced(r0, *buffer, attributes_bytes(attributes@)),
            aligned ==> attributes_bytes(attributes@) == attributes_bytes(w.take(i as int)),
        decreases count - i,
    {
        let ghost r1 = *buffer;
        let ghost before = attributes@;
        proof {
            if aligned {
                lemma_attributes_step(r0.data@, r0.pos as int, w, i as int);
            }
        }
        let a = IOAttributeInfo::read(buffer)?;
        proof {
            lemma_advanced_chain(r0, r1, *buffer, attributes_bytes(before), a.spec_bytes());
            if aligned {
                assert(a.spec_bytes() =~= w[i as int].spec_bytes());
            }
        }
        attributes.push(a);
        proof {
            assert(attributes@.drop_last() =~= before);
        }
        i = i + 1;
    }
    proof {
        if aligned {
            assert(w.take(i as int) =~= w);
        }
    }
    Ok(attributes)
}

/// Appends the bytes of each attribute in turn.
fn write_attributes(attributes: &Vec<IOAttributeInfo>, out: &mut Vec<u8>)
    ensures
        final(out)@ == old(out)@ + attributes_bytes(attributes@),
{
    let mut i: usize = 0;
    while i < attributes.len()
        invariant
            i <= attributes@.len(),
            out@ == old(out)@ + attributes_bytes(attributes@.subrange(0, i as int)),
        decreases attributes@.len() - i,
    {
        let ghost before = out@;
        attributes[i].write(out);
        proof {
            assert(attributes@.subrange(0, i + 1).drop_last() =~= attributes@.subrange(
                0,
                i as int,
            ));
            assert(out@ =~= old(out)@ + attributes_bytes(attributes@.subrange(0, i + 1)));
        }
        i = i + 1;
    }
    assert(attributes@.subrange(0, i as int) =~= attributes@);
}

/// The input holds a well-formed field (or method) at `p`.
pub open spec fn holds_member(s: Seq<u8>, p: int) -> bool {
    exists|f: IOFieldInfo| f.wf() && #[trigger] bytes_at(s, p, f.spec_bytes())
}

/// Where a well-formed field stands, its four `u16` values and its
/// attributes stand in turn.
proof fn lemma_member_at(s: Seq<u8>, p: int, f: IOFieldInfo)
    requires
        f.wf(),
        bytes_at(s, p, f.spec_bytes()),
    ensures
        p + 8 <= s.len(),
        u16_at(s, p) == f.access_flags,
        u16_at(s, p + 2) == f.name_index,
        u16_at(s, p + 4) == f.descriptor_index,
        u16_at(s, p + 6) == f.attributes_count,
        bytes_at(s, p + 8, attributes_bytes(f.attributes@)),
{
    let b1 = u16_bytes(f.access_flags);
    let b2 = b1 + u16_bytes(f.name_index);
    let b3 = b2 + u16_bytes(f.descriptor_index);
    let b4 = b3 + u16_bytes(f.attributes_count);
    lemma_bytes_at_split(s, p, b4, attributes_bytes(f.attributes@));
    lemma_bytes_at_split(s, p, b3, u16_bytes(f.attributes_count));
    lemma_bytes_at_split(s, p, b2, u16_bytes(f.descriptor_index));
    lemma_bytes_at_split(s, p, b1, u16_bytes(f.name_index));
    lemma_u16_at_bytes(s, p, f.access_flags);
    lemma_u16_at_bytes(s, p + 2, f.name_index);
    lemma_u16_at_bytes(s, p + 4, f.descriptor_index);
    lemma_u16_at_bytes(s, p + 6, f.attributes_count);
}

/// Reads the shape shared by fields and methods. Where the input holds the
/// member `w`, it reads a member with its bytes.
fn read_member(buffer: &mut ByteReader, Ghost(w): Ghost<Option<IOFieldInfo>>) -> (r: Result<
    IOFieldInfo,
    BytesError,
>)
    requires
        old(buffer).wf(),
    ensures
        final(buffer).data@ == old(buffer).data@,
        r matches Ok(f) ==> f.wf() && advanced(*old(buffer), *final(buffer), f.spec_bytes()),
        old(buffer).pos + 8 > old(buffer).data@.len() ==> r is Err,
        w is Some && w->0.wf() && bytes_at(
            old(buffer).data@,
            old(buffer).pos as int,
            w->0.spec_bytes(),
        ) ==> (r matches Ok(f) && f.spec_bytes() == w->0.spec_bytes()),
{
    let ghost r0 = *buffer;
    let ghost aligned = w is Some && w->0.wf() && bytes_at(
        r0.data@,
        r0.pos as int,
        w->0.spec_bytes(),
    );
    let ghost m = w->0;
    proof {
        if aligned {
            lemma_member_at(r0.data@, r0.pos as int, m);
        }
    }
    let access_flags = buffer.read_u16()?;
    let ghost r1 = *buffer;
    let name_index = buffer.read_u16()?;
    let ghost r2 = *buffer;
    let descriptor_index = buffer.read_u16()?;
    let ghost r3 = *buffer;
    let attributes_count = buffer.read_u16()?;
    let ghost r4 = *buffer;
    let attributes = read_attributes(
        buffer,
        attributes_count,
        Ghost(if aligned { m.attributes@ } else { Seq::empty() }),
    )?;
    proof {
        let b1 = u16_bytes(access_flags);
        let b2 = b1 + u16_bytes(name_index);
        let b3 = b2 + u16_bytes(descriptor_index);
        let b4 = b3 + u16_bytes(attributes_count);
        lemma_advanced_chain(r0, r1, r2, b1, u16_bytes(name_index));
        lemma_advanced_chain(r0, r2, r3, b2, u16_bytes(descriptor_index));
        lemma_advanced_chain(r0, r3, r4, b3, u16_bytes(attributes_count));
        lemma_advanced_chain(r0, r4, *buffer, b4, attributes_bytes(attributes@));
    }
    Ok(IOFieldInfo { access_flags, name_index, descriptor_index, attributes_count, attributes })
}

/// A field as it stands in the file.
#[derive(Debug)]
pub struct IOFieldInfo {
    pub access_flags: u16,
    pub name_index: u16,
    pub descriptor_index: u16,
    pub attributes_count: u16,
    pub attributes: Vec<IOAttributeInfo>,
}

impl IOFieldInfo {
    /// The stored count is the number of attributes, each well formed.
    pub open spec fn wf(&self) -> bool {
        self.attributes_count as int == self.attributes@.len() && attributes_wf(self.attributes@)
    }

    /// The bytes of the field.
    pub open spec fn spec_bytes(&self) -> Seq<u8> {
        member_bytes(
            self.access_flags,
            self.name_index,
            self.descriptor_index,
            self.attributes_count,
            self.attributes@,
        )
    }

    /// Reads four `u16` values, then as many attributes as the last says.
    pub fn read(buffer: &mut ByteReader) -> (r: Result<IOFieldInfo, BytesError>)
        requires
            old(buffer).wf(),
        ensures
            final(buffer).data@ == old(buffer).data@,
            r matches Ok(f) ==> f.wf() && advanced(*old(buffer), *final(buffer), f.spec_bytes()),
            old(buffer).pos + 8 > old(buffer).data@.len() ==> r is Err,
            holds_member(old(buffer).data@, old(buffer).pos as int) ==> r is Ok,
    {
        let ghost has = holds_member(buffer.data@, buffer.pos as int);
        let ghost w = choose|f: IOFieldInfo|
            f.wf() && bytes_at(buffer.data@, buffer.pos as int, f.spec_bytes());
        read_member(buffer, Ghost(if has { Some(w) } else { None }))
    }

    /// Appends the bytes of the field, the count echoed as stored.
    pub fn write(&self, out: &mut Vec<u8>)
        ensures
            final(out)@ == old(out)@ + self.spec_bytes(),
    {
        let ghost start = out@;
        write_u16(out, self.access_flags);
        write_u16(out, self.name_index);
        write_u16(out, self.descriptor_index);
        write_u16(out, self.attributes_count);
        let ghost mid = out@;
        write_attributes(&self.attributes, out);
        assert(out@ =~= start + self.spec_bytes());
    }
}

/// A method as it stands in the file; the same shape as a field.
#[derive(Debug)]
pub struct IOMethodInfo {
    pub access_flags: u16,
    pub name_index: u16,
    pub descriptor_index: u16,
    pub attributes_count: u16,
    pub attributes: Vec<IOAttributeInfo>,
}

impl IOMethodInfo {
    /// The stored count is the number of attributes, each well formed.
    pub open spec fn wf(&self) -> bool {
        self.attributes_count as int == self.attributes@.len() && attributes_wf(self.attributes@)
    }

    /// The bytes of the method.
    pub open spec fn spec_bytes(&self) -> Seq<u8> {
        member_bytes(
            self.access_flags,
            self.name_index,
            self.descriptor_index,
            self.attributes_count,
            self.attributes@,
        )
    }

    /// Reads four `u16` values, then as many attributes as the last says.
    pub fn read(buffer: &mut ByteReader) -> (r: Result<IOMethodInfo, IOClassfileError>)
        requires
            old(buffer).wf(),
        ensures
            final(buffer).data@ == old(buffer).data@,
            r matches Ok(m) ==> m.wf() && advanced(*old(buffer), *final(buffer), m.spec_bytes()),
            r matches Err(e) ==> e == IOClassfileError::Bytes(BytesError::NotEnoughData),
            old(buffer).pos + 8 > old(buffer).data@.len() ==> r is Err,
            holds_member(old(buffer).data@, old(buffer).pos as int) ==> r is Ok,
    {
        let f = match IOFieldInfo::read(buffer) {
            Ok(f) => f,
            Err(e) => return Err(IOClassfileError::Bytes(e)),
        };
        Ok(
            IOMethodInfo {
                access_flags: f.access_flags,
                name_index: f.name_index,
                descriptor_index: f.descriptor_index,
                attributes_count: f.attributes_count,
                attributes: f.attributes,
            },
        )
    }

    /// Appends the bytes of the method, the count echoed as stored.
    pub fn write(&self, out: &mut Vec<u8>)
        ensures
            final(out)@ == old(out)@ + self.spec_bytes(),
    {
        let ghost start = out@;
        write_u16(out, self.access_flags);
        write_u16(out, self.name_index);
        write_u16(out, self.descriptor_index);
        write_u16(out, self.attributes_count);
        write_attributes(&self.attributes, out);
        assert(out@ =~= start + self.spec_bytes());
    }
}


/// The bytes of a sequence of pool slots, one after the other.
pub open spec fn pool_bytes(s: Seq<IOCpTag>) -> Seq<u8> {
    concat_bytes(s, |x: IOCpTag| x.spec_bytes())
}

/// Each entry is well formed, a reserved slot follows each `Long` or
/// `Double` and stands nowhere else.
pub open spec fn pool_wf(cp: Seq<IOCpTag>) -> bool {
    forall|i: int|
        #![trigger cp[i]]
        0 <= i < cp.len() ==> {
            &&& cp[i].wf()
            &&& (cp[i] is Reserved <==> (i > 0 && cp[i - 1].is_wide()))
            &&& (cp[i].is_wide() ==> i + 1 < cp.len())
        }
}

/// The bytes of a sequence of fields, one after the other.
pub open spec fn fields_bytes(s: Seq<IOFieldInfo>) -> Seq<u8> {
    concat_bytes(s, |x: IOFieldInfo| x.spec_bytes())
}

/// The bytes of a sequence of methods, one after the other.
pub open spec fn methods_bytes(s: Seq<IOMethodInfo>) -> Seq<u8> {
    concat_bytes(s, |x: IOMethodInfo| x.spec_bytes())
}

/// Where a pool entry other than the reserved slot stands, its tag byte is
/// its kind's and the entry takes the size its tag and length field give.
proof fn lemma_cp_entry_at(s: Seq<u8>, p: int, t: IOCpTag)
    requires
        t.wf(),
        !(t is Reserved),
        bytes_at(s, p, t.spec_bytes()),
    ensures
        p < s.len(),
        s[p] == t.spec_id(),
        known_cp_tag(s[p]),
        cp_entry_size(s, p) == t.spec_bytes().len(),
{
    assert(s[p] == s.subrange(p, p + t.spec_bytes().len())[0]);
    if let IOCpTag::Utf8 { length, bytes } = t {
        lemma_bytes_at_split(s, p, seq![1u8] + u16_bytes(length), bytes@);
        lemma_bytes_at_split(s, p, seq![1u8], u16_bytes(length));
        lemma_u16_at_bytes(s, p + 1, length);
    }
}

/// The first byte of an entry other than the reserved slot is its tag, and
/// the wide kinds are tags 5 and 6.
proof fn lemma_cp_first_byte(t: IOCpTag)
    requires
        !(t is Reserved),
    ensures
        t.spec_bytes().len() > 0,
        t.spec_bytes()[0] == t.spec_id(),
        t.is_wide() <==> (t.spec_id() == 5 || t.spec_id() == 6),
{
}

proof fn lemma_pool_step(data: Seq<u8>, p: int, w: Seq<IOCpTag>, i: int)
    requires
        bytes_at(data, p, pool_bytes(w)),
        0 <= i < w.len(),
    ensures
        bytes_at(data, p + pool_bytes(w.take(i)).len(), w[i].spec_bytes()),
        pool_bytes(w.take(i + 1)) == pool_bytes(w.take(i)) + w[i].spec_bytes(),
{
    let f = |x: IOCpTag| x.spec_bytes();
    assert(pool_bytes(w) == concat_bytes(w, f));
    lemma_concat_item_at(data, p, w, f, i);
    assert(pool_bytes(w.take(i)) == concat_bytes(w.take(i), f));
    assert(pool_bytes(w.take(i + 1)) == concat_bytes(w.take(i + 1), f));
}

proof fn lemma_u16s_step(data: Seq<u8>, p: int, w: Seq<u16>, i: int)
    requires
        bytes_at(data, p, u16s_bytes(w)),
        0 <= i < w.len(),
    ensures
        bytes_at(data, p + u16s_bytes(w.take(i)).len(), u16_bytes(w[i])),
        u16s_bytes(w.take(i + 1)) == u16s_bytes(w.take(i)) + u16_bytes(w[i]),
{
    let f = |x: u16| u16_bytes(x);
    assert(u16s_bytes(w) == concat_bytes(w, f));
    lemma_concat_item_at(data, p, w, f, i);
    assert(u16s_bytes(w.take(i)) == concat_bytes(w.take(i), f));
    assert(u16s_bytes(w.take(i + 1)) == concat_bytes(w.take(i + 1), f));
}

proof fn lemma_fields_step(data: Seq<u8>, p: int, w: Seq<IOFieldInfo>, i: int)
    requires
        bytes_at(data, p, fields_bytes(w)),
        0 <= i < w.len(),
    ensures
        bytes_at(data, p + fields_bytes(w.take(i)).len(), w[i].spec_bytes()),
        fields_bytes(w.take(i + 1)) == fields_bytes(w.take(i)) + w[i].spec_bytes(),
{
    let f = |x: IOFieldInfo| x.spec_bytes();
    assert(fields_bytes(w) == concat_bytes(w, f));
    lemma_concat_item_at(data, p, w, f, i);
    assert(fields_bytes(w.take(i)) == concat_bytes(w.take(i), f));
    assert(fields_bytes(w.take(i + 1)) == concat_bytes(w.take(i + 1), f));
}

proof fn lemma_methods_step(data: Seq<u8>, p: int, w: Seq<IOMethodInfo>, i: int)
    requires
        bytes_at(data, p, methods_bytes(w)),
        0 <= i < w.len(),
    ensures
        bytes_at(data, p + methods_bytes(w.take(i)).len(), w[i].spec_bytes()),
        methods_bytes(w.take(i + 1)) == methods_bytes(w.take(i)) + w[i].spec_bytes(),
{
    let f = |x: IOMethodInfo| x.spec_bytes();
    assert(methods_bytes(w) == concat_bytes(w, f));
    lemma_concat_item_at(data, p, w, f, i);
    assert(methods_bytes(w.take(i)) == concat_bytes(w.take(i), f));
    assert(methods_bytes(w.take(i + 1)) == concat_bytes(w.take(i + 1), f));
}


/// Reads the `u16` that is part `k` of a class file, the parts before it
/// having been read as `acc` from `r0` on. Where the input holds `w` and
/// `acc` is `w`'s first `k` parts, it reads `w`'s value.
fn read_part_u16<'a>(
    buffer: &mut ByteReader<'a>,
    Ghost(r0): Ghost<ByteReader<'a>>,
    Ghost(acc): Ghost<Seq<u8>>,
    Ghost(w): Ghost<IOClassFile>,
    Ghost(aligned): Ghost<bool>,
    Ghost(k): Ghost<nat>,
    Ghost(expected): Ghost<u16>,
) -> (r: Result<u16, IOClassfileError>)
    requires
        advanced(r0, *old(buffer), acc),
        aligned ==> class_layout(r0.data@, r0.pos as int, w) && acc == class_prefix(w, k) && k
            < 16 && class_part(w, k as int) == u16_bytes(expected),
    ensures
        final(buffer).data@ == old(buffer).data@,
        r matches Ok(v) ==> advanced(r0, *final(buffer), acc + u16_bytes(v)),
        r matches Err(e) ==> e == IOClassfileError::Bytes(BytesError::NotEnoughData),
        aligned ==> (r matches Ok(v) && v == expected && acc + u16_bytes(v) == class_prefix(
            w,
            k + 1,
        )),
{
    let ghost r1 = *buffer;
    proof {
        if aligned {
            lemma_layout_part(r0.data@, r0.pos as int, w, k);
            lemma_u16_at_bytes(r0.data@, r1.pos as int, expected);
        }
    }
    let v = read_u16_io(buffer)?;
    proof {
        lemma_advanced_chain(r0, r1, *buffer, acc, u16_bytes(v));
    }
    Ok(v)
}

/// Reads pool slots until `cp_count - 1` are filled, a `Long` or `Double`
/// taking two. Where the input holds the well-formed pool `w` of that
/// count, it reads a pool with its bytes.
#[verifier::rlimit(60)]
fn read_pool(
    buffer: &mut ByteReader,
    cp_count: u16,
    Ghost(w): Ghost<Option<Seq<IOCpTag>>>,
) -> (r: Result<
    Vec<IOCpTag>,
    IOClassfileError,
>)
    requires
        old(buffer).wf(),
    ensures
        final(buffer).data@ == old(buffer).data@,
        r matches Ok(cp) ==> cp_count as int == cp@.len() + 1 && pool_wf(cp@) && advanced(
            *old(buffer),
            *final(buffer),
            pool_bytes(cp@),
        ),
        r matches Err(e) ==> e != IOClassfileError::InvalidMagic,
        w is Some && pool_wf(w->0) && cp_count as int == w->0.len() + 1 && bytes_at(
            old(buffer).data@,
            old(buffer).pos as int,
            pool_bytes(w->0),
        ) ==> (r matches Ok(cp) && pool_bytes(cp@) == pool_bytes(w->0)),
{
    let ghost r0 = *buffer;
    let ghost d = r0.data@;
    let ghost aligned = w is Some && pool_wf(w->0) && cp_count as int == w->0.len() + 1 && bytes_at(
        d,
        r0.pos as int,
        pool_bytes(w->0),
    );
    let ghost wc = w->0;
    if cp_count == 0 {
        return Err(IOClassfileError::BadPoolCount);
    }
    let mut cp: Vec<IOCpTag> = Vec::new();
    proof {
        assert(d.subrange(r0.pos as int, r0.pos as int) =~= pool_bytes(cp@));
        if aligned {
            assert(wc.take(0) =~= seq![]);
        }
    }
    while cp.len() + 1 < cp_count as usize
        invariant
            r0 == *old(buffer),
            d == r0.data@,
            aligned == (w is Some && pool_wf(w->0) && cp_count as int == w->0.len() + 1
                && bytes_at(d, r0.pos as int, pool_bytes(w->0))),
            wc == w->0,
            buffer.data@ == d,
            cp@.len() + 1 <= cp_count,
            pool_wf(cp@),
            advanced(r0, *buffer, pool_bytes(cp@)),
            aligned ==> cp@.len() <= wc.len() && pool_bytes(cp@) == pool_bytes(
                wc.take(cp@.len() as int),
            ),
            aligned ==> (cp@.len() > 0 ==> !wc[cp@.len() - 1].is_wide()),
        decreases cp_count - cp@.len(),
    {
        let ghost r1 = *buffer;
        let ghost before = cp@;
        let ghost k = cp@.len() as int;
        proof {
            if aligned {
                assert(wc[k].wf());
                assert(!(wc[k] is Reserved));
                lemma_pool_step(d, r0.pos as int, wc, k);
                lemma_cp_entry_at(d, r1.pos as int, wc[k]);
            }
        }
        let t = IOCpTag::read(buffer)?;
        let wide = match &t {
            IOCpTag::Long { .. } | IOCpTag::Double { .. } => true,
            _ => false,
        };
        proof {
            lemma_advanced_chain(r0, r1, *buffer, pool_bytes(before), t.spec_bytes());
            if aligned {
                assert(t.spec_bytes() =~= wc[k].spec_bytes());
                lemma_cp_first_byte(t);
                lemma_cp_first_byte(wc[k]);
                if wide {
                    assert(wc[k + 1] is Reserved);
                    lemma_pool_step(d, r0.pos as int, wc, k + 1);
                }
            }
        }
        cp.push(t);
        proof {
            assert(cp@.drop_last() =~= before);
        }
        if wide {
            if cp.len() + 1 >= cp_count as usize {
                return Err(IOClassfileError::BadPoolCount);
            }
            let ghost with_entry = cp@;
            cp.push(IOCpTag::Reserved);
            proof {
                assert(cp@.drop_last() =~= with_entry);
                assert(pool_bytes(with_entry) + seq![] =~= pool_bytes(with_entry));
                if aligned {
                    assert(wc[k + 1].spec_bytes() =~= seq![]);
                    assert(pool_bytes(wc.take(k + 2)) =~= pool_bytes(wc.take(k + 1)));
                }
            }
        }
    }
    proof {
        if aligned {
            assert(wc.take(cp@.len() as int) =~= wc);
        }
    }
    Ok(cp)
}

/// Reads `count` `u16` values. Where the input holds the values `w`, it
/// reads them.
fn read_u16s(buffer: &mut ByteReader, count: u16, Ghost(w): Ghost<Option<Seq<u16>>>) -> (r: Result<
    Vec<u16>,
    IOClassfileError,
>)
    requires
        old(buffer).wf(),
    ensures
        final(buffer).data@ == old(buffer).data@,
        r matches Ok(v) ==> v@.len() == count && advanced(
            *old(buffer),
            *final(buffer),
            u16s_bytes(v@),
        ),
        r matches Err(e) ==> e == IOClassfileError::Bytes(BytesError::NotEnoughData),
        w is Some && w->0.len() == count && bytes_at(
            old(buffer).data@,
            old(buffer).pos as int,
            u16s_bytes(w->0),
        ) ==> (r matches Ok(v) && v@ == w->0),
{
    let ghost r0 = *buffer;
    let ghost d = r0.data@;
    let ghost aligned = w is Some && w->0.len() == count && bytes_at(
        d,
        r0.pos as int,
        u16s_bytes(w->0),
    );
    let ghost wv = w->0;
    let mut v: Vec<u16> = Vec::new();
    let mut i: u16 = 0;
    proof {
        assert(d.subrange(r0.pos as int, r0.pos as int) =~= u16s_bytes(v@));
        if aligned {
            assert(wv.take(0) =~= v@);
        }
    }
    while i < count
        invariant
            r0 == *old(buffer),
            d == r0.data@,
            aligned == (w is Some && w->0.len() == count && bytes_at(
                d,
                r0.pos as int,
                u16s_bytes(w->0),
            )),
            wv == w->0,
            buffer.data@ == d,
            i <= count,
            v@.len() == i,
            advanced(r0, *buffer, u16s_bytes(v@)),
            aligned ==> v@ == wv.take(i as int),
        decreases count - i,
    {
        let ghost r1 = *buffer;
        let ghost before = v@;
        proof {
            if aligned {
                lemma_u16s_step(d, r0.pos as int, wv, i as int);
                lemma_u16_at_bytes(d, r1.pos as int, wv[i as int]);
            }
        }
        let x = read_u16_io(buffer)?;
        proof {
            lemma_advanced_chain(r0, r1, *buffer, u16s_bytes(before), u16_bytes(x));
        }
        v.push(x);
        proof {
            assert(v@.drop_last() =~= before);
            if aligned {
                assert(v@ =~= wv.take(i + 1));
            }
        }
        i = i + 1;
    }
    proof {
        if aligned {
            assert(wv.take(i as int) =~= wv);
        }
    }
    Ok(v)
}

/// Reads `count` fields. Where the input holds the well-formed fields `w`,
/// it reads fields with their bytes.
fn read_fields(
    buffer: &mut ByteReader,
    count: u16,
    Ghost(w): Ghost<Option<Seq<IOFieldInfo>>>,
) -> (r: Result<
    Vec<IOFieldInfo>,
    IOClassfileError,
>)
    requires
        old(buffer).wf(),
    ensures
        final(buffer).data@ == old(buffer).data@,
        r matches Ok(v) ==> v@.len() == count && (forall|j: int|
            0 <= j < v@.len() ==> #[trigger] v@[j].wf()) && advanced(
            *old(buffer),
            *final(buffer),
            fields_bytes(v@),
        ),
        r matches Err(e) ==> e == IOClassfileError::Bytes(BytesError::NotEnoughData),
        w is Some && w->0.len() == count && (forall|j: int|
            0 <= j < w->0.len() ==> #[trigger] w->0[j].wf()) && bytes_at(
            old(buffer).data@,
            old(buffer).pos as int,
            fields_bytes(w->0),
        ) ==> (r matches Ok(v) && fields_bytes(v@) == fields_bytes(w->0)),
{
    let ghost r0 = *buffer;
    let ghost d = r0.data@;
    let ghost aligned = w is Some && w->0.len() == count && (forall|j: int|
        0 <= j < w->0.len() ==> #[trigger] w->0[j].wf()) && bytes_at(
        d,
        r0.pos as int,
        fields_bytes(w->0),
    );
    let ghost wf = w->0;
    let mut v: Vec<IOFieldInfo> = Vec::new();
    let mut i: u16 = 0;
    proof {
        assert(d.subrange(r0.pos as int, r0.pos as int) =~= fields_bytes(v@));
        if aligned {
            assert(wf.take(0) =~= v@);
        }
    }
    while i < count
        invariant
            r0 == *old(buffer),
            d == r0.data@,
            aligned == (w is Some && w->0.len() == count && (forall|j: int|
                0 <= j < w->0.len() ==> #[trigger] w->0[j].wf()) && bytes_at(
                d,
                r0.pos as int,
                fields_bytes(w->0),
            )),
            wf == w->0,
            buffer.data@ == d,
            i <= count,
            v@.len() == i,
            forall|j: int| 0 <= j < v@.len() ==> #[trigger] v@[j].wf(),
            advanced(r0, *buffer, fields_bytes(v@)),
            aligned ==> fields_bytes(v@) == fields_bytes(wf.take(i as int)),
        decreases count - i,
    {
        let ghost r1 = *buffer;
        let ghost before = v@;
        proof {
            if aligned {
                lemma_fields_step(d, r0.pos as int, wf, i as int);
                assert(wf[i as int].wf());
            }
        }
        let f = match read_member(buffer, Ghost(if aligned { Some(wf[i as int]) } else { None })) {
            Ok(f) => f,
            Err(e) => return Err(IOClassfileError::Bytes(e)),
        };
        proof {
            lemma_advanced_chain(r0, r1, *buffer, fields_bytes(before), f.spec_bytes());
        }
        v.push(f);
        proof {
            assert(v@.drop_last() =~= before);
        }
        i = i + 1;
    }
    proof {
        if aligned {
            assert(wf.take(i as int) =~= wf);
        }
    }
    Ok(v)
}

/// Reads `count` methods. Where the input holds the well-formed methods
/// `w`, it reads methods with their bytes.
fn read_methods(
    buffer: &mut ByteReader,
    count: u16,
    Ghost(w): Ghost<Option<Seq<IOMethodInfo>>>,
) -> (r: Result<
    Vec<IOMethodInfo>,
    IOClassfileError,
>)
    requires
        old(buffer).wf(),
    ensures
        final(buffer).data@ == old(buffer).data@,
        r matches Ok(v) ==> v@.len() == count && (forall|j: int|
            0 <= j < v@.len() ==> #[trigger] v@[j].wf()) && advanced(
            *old(buffer),
            *final(buffer),
            methods_bytes(v@),
        ),
        r matches Err(e) ==> e == IOClassfileError::Bytes(BytesError::NotEnoughData),
        w is Some && w->0.len() == count && (forall|j: int|
            0 <= j < w->0.len() ==> #[trigger] w->0[j].wf()) && bytes_at(
            old(buffer).data@,
            old(buffer).pos as int,
            methods_bytes(w->0),
        ) ==> (r matches Ok(v) && methods_bytes(v@) == methods_bytes(w->0)),
{
    let ghost r0 = *buffer;
    let ghost d = r0.data@;
    let ghost aligned = w is Some && w->0.len() == count && (forall|j: int|
        0 <= j < w->0.len() ==> #[trigger] w->0[j].wf()) && bytes_at(
        d,
        r0.pos as int,
        methods_bytes(w->0),
    );
    let ghost wm = w->0;
    let mut v: Vec<IOMethodInfo> = Vec::new();
    let mut i: u16 = 0;
    proof {
        assert(d.subrange(r0.pos as int, r0.pos as int) =~= methods_bytes(v@));
        if aligned {
            assert(wm.take(0) =~= v@);
        }
    }
    while i < count
        invariant
            r0 == *old(buffer),
            d == r0.data@,
            aligned == (w is Some && w->0.len() == count && (forall|j: int|
                0 <= j < w->0.len() ==> #[trigger] w->0[j].wf()) && bytes_at(
                d,
                r0.pos as int,
                methods_bytes(w->0),
            )),
            wm == w->0,
            buffer.data@ == d,
            i <= count,
            v@.len() == i,
            forall|j: int| 0 <= j < v@.len() ==> #[trigger] v@[j].wf(),
            advanced(r0, *buffer, methods_bytes(v@)),
            aligned ==> methods_bytes(v@) == methods_bytes(wm.take(i as int)),
        decreases count - i,
    {
        let ghost r1 = *buffer;
        let ghost before = v@;
        let ghost m = wm[i as int];
        let ghost as_field = IOFieldInfo {
            access_flags: m.access_flags,
            name_index: m.name_index,
            descriptor_index: m.descriptor_index,
            attributes_count: m.attributes_count,
            attributes: m.attributes,
        };
        proof {
            if aligned {
                lemma_methods_step(d, r0.pos as int, wm, i as int);
                assert(m.wf());
            }
        }
        let f = match read_member(buffer, Ghost(if aligned { Some(as_field) } else { None })) {
            Ok(f) => f,
            Err(e) => return Err(IOClassfileError::Bytes(e)),
        };
        let x = IOMethodInfo {
            access_flags: f.access_flags,
            name_index: f.name_index,
            descriptor_index: f.descriptor_index,
            attributes_count: f.attributes_count,
            attributes: f.attributes,
        };
        proof {
            lemma_advanced_chain(r0, r1, *buffer, methods_bytes(before), x.spec_bytes());
        }
        v.push(x);
        proof {
            assert(v@.drop_last() =~= before);
        }
        i = i + 1;
    }
    proof {
        if aligned {
            assert(wm.take(i as int) =~= wm);
        }
    }
    Ok(v)
}

/// A whole class file as it stands in the file.
#[derive(Debug)]
pub struct IOClassFile {
    pub magic: u32,
    pub minor_version: u16,
    pub major_version: u16,
    pub cp_count: u16,
    pub cp: Vec<IOCpTag>,
    pub access_flags: u16,
    pub this_class: u16,
    pub super_class: u16,
    pub interface_count: u16,
    pub interfaces: Vec<u16>,
    pub field_count: u16,
    pub fields: Vec<IOFieldInfo>,
    pub method_count: u16,
    pub methods: Vec<IOMethodInfo>,
    pub attribute_count: u16,
    pub attributes: Vec<IOAttributeInfo>,
}

impl IOClassFile {
    /// The magic is right, the pool count is one more than the number of
    /// slots, and every stored count matches what it counts.
    pub open spec fn wf(&self) -> bool {
        &&& self.magic == MAGIC
        &&& self.cp_count as int == self.cp@.len() + 1
        &&& pool_wf(self.cp@)
        &&& self.interface_count as int == self.interfaces@.len()
        &&& self.field_count as int == self.fields@.len()
        &&& (forall|i: int| 0 <= i < self.fields@.len() ==> #[trigger] self.fields@[i].wf())
        &&& self.method_count as int == self.methods@.len()
        &&& (forall|i: int| 0 <= i < self.methods@.len() ==> #[trigger] self.methods@[i].wf())
        &&& self.attribute_count as int == self.attributes@.len()
        &&& attributes_wf(self.attributes@)
    }

    /// The bytes of the class file, every count as stored.
    pub open spec fn spec_bytes(&self) -> Seq<u8> {
        u32_bytes(self.magic) + u16_bytes(self.minor_version) + u16_bytes(self.major_version)
            + u16_bytes(self.cp_count) + pool_bytes(self.cp@) + u16_bytes(self.access_flags)
            + u16_bytes(self.this_class) + u16_bytes(self.super_class) + u16_bytes(
            self.interface_count,
        ) + u16s_bytes(self.interfaces@) + u16_bytes(self.field_count) + fields_bytes(
            self.fields@,
        ) + u16_bytes(self.method_count) + methods_bytes(self.methods@) + u16_bytes(
            self.attribute_count,
        ) + attributes_bytes(self.attributes@)
    }

    /// Reads a class file. On success the result is well formed and its bytes
    /// are exactly the bytes read; the pool is read slot by slot until the
    /// declared count is reached, a `Long` or `Double` taking two. Where the
    /// input holds a well-formed class file, reading succeeds.
    #[verifier::rlimit(100)]
    #[verifier::spinoff_prover]
    pub fn read(buffer: &mut ByteReader) -> (r: Result<IOClassFile, IOClassfileError>)
        requires
            old(buffer).wf(),
        ensures
            final(buffer).data@ == old(buffer).data@,
            r matches Ok(cf) ==> cf.wf() && advanced(*old(buffer), *final(buffer), cf.spec_bytes()),
            r == Err::<IOClassFile, IOClassfileError>(IOClassfileError::InvalidMagic) <==> (old(
                buffer,
            ).pos + 4 <= old(buffer).data@.len() && u32_at(
                old(buffer).data@,
                old(buffer).pos as int,
            ) != MAGIC),
            old(buffer).pos + 4 > old(buffer).data@.len() ==> r == Err::<
                IOClassFile,
                IOClassfileError,
            >(IOClassfileError::Bytes(BytesError::NotEnoughData)),
            holds_class_file(old(buffer).data@, old(buffer).pos as int) ==> r is Ok,
            fills_class_file(old(buffer).data@, old(buffer).pos as int) ==> (r is Ok
                && final(buffer).pos == old(buffer).data@.len()),
    {
        let ghost r0 = *buffer;
        let ghost d = r0.data@;
        let ghost base = r0.pos as int;
        let ghost aligned = holds_class_file(d, base);
        let ghost fills = fills_class_file(d, base);
        let ghost w = if fills {
            choose|cf: IOClassFile|
                #[trigger] class_file_at(d, base, cf) && base + cf.spec_bytes().len() == d.len()
        } else {
            choose|cf: IOClassFile| class_file_at(d, base, cf)
        };
        proof {
            if aligned {
                lemma_class_layout(d, base, w);
                lemma_layout_part(d, base, w, 0);
                lemma_u32_at_bytes(d, base, w.magic);
            }
        }
        let magic = match buffer.read_u32() {
            Ok(m) => m,
            Err(e) => return Err(IOClassfileError::Bytes(e)),
        };
        if magic != MAGIC {
            return Err(IOClassfileError::InvalidMagic);
        }
        let ghost mut acc = u32_bytes(magic);
        proof {
            if aligned {
                assert(acc =~= class_prefix(w, 1));
            }
        }
        let minor_version = read_part_u16(
            buffer,
            Ghost(r0),
            Ghost(acc),
            Ghost(w),
            Ghost(aligned),
            Ghost(1nat),
            Ghost(w.minor_version),
        )?;
        proof { acc = acc + u16_bytes(minor_version); }
        let major_version = read_part_u16(
            buffer,
            Ghost(r0),
            Ghost(acc),
            Ghost(w),
            Ghost(aligned),
            Ghost(2nat),
            Ghost(w.major_version),
        )?;
        proof { acc = acc + u16_bytes(major_version); }
        let cp_count = read_part_u16(
            buffer,
            Ghost(r0),
            Ghost(acc),
            Ghost(w),
            Ghost(aligned),
            Ghost(3nat),
            Ghost(w.cp_count),
        )?;
        proof { acc = acc + u16_bytes(cp_count); }
        let ghost prev = *buffer;
        proof {
            if aligned {
                assert(acc == class_prefix(w, 4));
                lemma_layout_part(d, base, w, 4);
            }
        }
        let cp = read_pool(buffer, cp_count, Ghost(if aligned { Some(w.cp@) } else { None }))?;
        proof {
            lemma_advanced_chain(r0, prev, *buffer, acc, pool_bytes(cp@));
            acc = acc + pool_bytes(cp@);
        }
        let access_flags = read_part_u16(
            buffer,
            Ghost(r0),
            Ghost(acc),
            Ghost(w),
            Ghost(aligned),
            Ghost(5nat),
            Ghost(w.access_flags),
        )?;
        proof { acc = acc + u16_bytes(access_flags); }
        let this_class = read_part_u16(
            buffer,
            Ghost(r0),
            Ghost(acc),
            Ghost(w),
            Ghost(aligned),
            Ghost(6nat),
            Ghost(w.this_class),
        )?;
        proof { acc = acc + u16_bytes(this_class); }
        let super_class = read_part_u16(
            buffer,
            Ghost(r0),
            Ghost(acc),
            Ghost(w),
            Ghost(aligned),
            Ghost(7nat),
            Ghost(w.super_class),
        )?;
        proof { acc = acc + u16_bytes(super_class); }
        let interface_count = read_part_u16(
            buffer,
            Ghost(r0),
            Ghost(acc),
            Ghost(w),
            Ghost(aligned),
            Ghost(8nat),
            Ghost(w.interface_count),
        )?;
        proof { acc = acc + u16_bytes(interface_count); }
        let ghost prev = *buffer;
        proof {
            if aligned {
                assert(acc == class_prefix(w, 9));
                lemma_layout_part(d, base, w, 9);
            }
        }
        let interfaces = read_u16s(
            buffer,
            interface_count,
            Ghost(if aligned { Some(w.interfaces@) } else { None }),
        )?;
        proof {
            lemma_advanced_chain(r0, prev, *buffer, acc, u16s_bytes(interfaces@));
            acc = acc + u16s_bytes(interfaces@);
        }
        let field_count = read_part_u16(
            buffer,
            Ghost(r0),
            Ghost(acc),
            Ghost(w),
            Ghost(aligned),
            Ghost(10nat),
            Ghost(w.field_count),
        )?;
        proof { acc = acc + u16_bytes(field_count); }
        let ghost prev = *buffer;
        proof {
            if aligned {
                assert(acc == class_prefix(w, 11));
                lemma_layout_part(d, base, w, 11);
            }
        }
        let fields = read_fields(
            buffer,
            field_count,
            Ghost(if aligned { Some(w.fields@) } else { None }),
        )?;
        proof {
            lemma_advanced_chain(r0, prev, *buffer, acc, fields_bytes(fields@));
            acc = acc + fields_bytes(fields@);
        }
        let method_count = read_part_u16(
            buffer,
            Ghost(r0),
            Ghost(acc),
            Ghost(w),
            Ghost(aligned),
            Ghost(12nat),
            Ghost(w.method_count),
        )?;
        proof { acc = acc + u16_bytes(method_count); }
        let ghost prev = *buffer;
        proof {
            if aligned {
                assert(acc == class_prefix(w, 13));
                lemma_layout_part(d, base, w, 13);
            }
        }
        let methods = read_methods(
            buffer,
            method_count,
            Ghost(if aligned { Some(w.methods@) } else { None }),
        )?;
        proof {
            lemma_advanced_chain(r0, prev, *buffer, acc, methods_bytes(methods@));
            acc = acc + methods_bytes(methods@);
        }
        let attribute_count = read_part_u16(
            buffer,
            Ghost(r0),
            Ghost(acc),
            Ghost(w),
            Ghost(aligned),
            Ghost(14nat),
            Ghost(w.attribute_count),
        )?;
        proof { acc = acc + u16_bytes(attribute_count); }
        let ghost prev = *buffer;
        proof {
            if aligned {
                assert(acc == class_prefix(w, 15));
                lemma_layout_part(d, base, w, 15);
            }
        }
        let attributes = match read_attributes(
            buffer,
            attribute_count,
            Ghost(if aligned { w.attributes@ } else { Seq::empty() }),
        ) {
            Ok(a) => a,
            Err(e) => return Err(IOClassfileError::Bytes(e)),
        };
        proof {
            lemma_advanced_chain(r0, prev, *buffer, acc, attributes_bytes(attributes@));
            acc = acc + attributes_bytes(attributes@);
            if aligned {
                lemma_class_prefix_all(w);
                assert(acc == class_prefix(w, 16));
            }
        }
        let cf = IOClassFile {
            magic,
            minor_version,
            major_version,
            cp_count,
            cp,
            access_flags,
            this_class,
            super_class,
            interface_count,
            interfaces,
            field_count,
            fields,
            method_count,
            methods,
            attribute_count,
            attributes,
        };
        assert(acc == cf.spec_bytes());
        Ok(cf)
    }

    /// Appends the bytes of the class file, every count echoed as stored.
    #[verifier::rlimit(80)]
    #[verifier::spinoff_prover]
    pub fn write(&self, out: &mut Vec<u8>)
        ensures
            final(out)@ == old(out)@ + self.spec_bytes(),
    {
        let ghost start = out@;
        write_u32(out, self.magic);
        write_u16(out, self.minor_version);
        write_u16(out, self.major_version);
        write_u16(out, self.cp_count);
        let ghost mark = out@;
        let mut i: usize = 0;
        while i < self.cp.len()
            invariant
                i <= self.cp@.len(),
                out@ == mark + pool_bytes(self.cp@.subrange(0, i as int)),
            decreases self.cp@.len() - i,
        {
            self.cp[i].write(out);
            proof {
                assert(self.cp@.subrange(0, i + 1).drop_last() =~= self.cp@.subrange(0, i as int));
                assert(out@ =~= mark + pool_bytes(self.cp@.subrange(0, i + 1)));
            }
            i = i + 1;
        }
        assert(self.cp@.subrange(0, i as int) =~= self.cp@);
        write_u16(out, self.access_flags);
        write_u16(out, self.this_class);
        write_u16(out, self.super_class);
        write_u16(out, self.interface_count);
        let ghost mark = out@;
        let mut i: usize = 0;
        while i < self.interfaces.len()
            invariant
                i <= self.interfaces@.len(),
                out@ == mark + u16s_bytes(self.interfaces@.subrange(0, i as int)),
            decreases self.interfaces@.len() - i,
        {
            write_u16(out, self.interfaces[i]);
            proof {
                assert(self.interfaces@.subrange(0, i + 1).drop_last()
                    =~= self.interfaces@.subrange(
                    0,
                    i as int,
                ));
                assert(out@ =~= mark + u16s_bytes(self.interfaces@.subrange(0, i + 1)));
            }
            i = i + 1;
        }
        assert(self.interfaces@.subrange(0, i as int) =~= self.interfaces@);
        write_u16(out, self.field_count);
        let ghost mark = out@;
        let mut i: usize = 0;
        while i < self.fields.len()
            invariant
                i <= self.fields@.len(),
                out@ == mark + fields_bytes(self.fields@.subrange(0, i as int)),
            decreases self.fields@.len() - i,
        {
            self.fields[i].write(out);
            proof {
                assert(self.fields@.subrange(0, i + 1).drop_last() =~= self.fields@.subrange(
                    0,
                    i as int,
                ));
                assert(out@ =~= mark + fields_bytes(self.fields@.subrange(0, i + 1)));
            }
            i = i + 1;
        }
        assert(self.fields@.subrange(0, i as int) =~= self.fields@);
        write_u16(out, self.method_count);
        let ghost mark = out@;
        let mut i: usize = 0;
        while i < self.methods.len()
            invariant
                i <= self.methods@.len(),
                out@ == mark + methods_bytes(self.methods@.subrange(0, i as int)),
            decreases self.methods@.len() - i,
        {
            self.methods[i].write(out);
            proof {
                assert(self.methods@.subrange(0, i + 1).drop_last() =~= self.methods@.subrange(
                    0,
                    i as int,
                ));
                assert(out@ =~= mark + methods_bytes(self.methods@.subrange(0, i + 1)));
            }
            i = i + 1;
        }
        assert(self.methods@.subrange(0, i as int) =~= self.methods@);
        write_u16(out, self.attribute_count);
        write_attributes(&self.attributes, out);
        assert(out@ =~= start + self.spec_bytes());
    }
}


/// Part `k` (from 0) of the bytes of a class file, in file order.
pub open spec fn class_part(cf: IOClassFile, k: int) -> Seq<u8> {
    if k == 0 {
        u32_bytes(cf.magic)
    } else if k == 1 {
        u16_bytes(cf.minor_version)
    } else if k == 2 {
        u16_bytes(cf.major_version)
    } else if k == 3 {
        u16_bytes(cf.cp_count)
    } else if k == 4 {
        pool_bytes(cf.cp@)
    } else if k == 5 {
        u16_bytes(cf.access_flags)
    } else if k == 6 {
        u16_bytes(cf.this_class)
    } else if k == 7 {
        u16_bytes(cf.super_class)
    } else if k == 8 {
        u16_bytes(cf.interface_count)
    } else if k == 9 {
        u16s_bytes(cf.interfaces@)
    } else if k == 10 {
        u16_bytes(cf.field_count)
    } else if k == 11 {
        fields_bytes(cf.fields@)
    } else if k == 12 {
        u16_bytes(cf.method_count)
    } else if k == 13 {
        methods_bytes(cf.methods@)
    } else if k == 14 {
        u16_bytes(cf.attribute_count)
    } else {
        attributes_bytes(cf.attributes@)
    }
}

/// The bytes of the first `k` parts of a class file.
pub open spec fn class_prefix(cf: IOClassFile, k: nat) -> Seq<u8>
    decreases k,
{
    if k == 0 {
        seq![]
    } else {
        class_prefix(cf, (k - 1) as nat) + class_part(cf, k - 1)
    }
}

/// `cf` is well formed and its bytes stand in `s` at `p`.
#[verifier::opaque]
pub open spec fn class_file_at(s: Seq<u8>, p: int, cf: IOClassFile) -> bool {
    cf.wf() && bytes_at(s, p, cf.spec_bytes())
}

/// The input holds a well-formed class file at `p`.
pub open spec fn holds_class_file(s: Seq<u8>, p: int) -> bool {
    exists|cf: IOClassFile| #[trigger] class_file_at(s, p, cf)
}

/// The input from `p` to its end is exactly a well-formed class file.
pub open spec fn fills_class_file(s: Seq<u8>, p: int) -> bool {
    exists|cf: IOClassFile|
        #[trigger] class_file_at(s, p, cf) && p + cf.spec_bytes().len() == s.len()
}

/// `cf` is well formed and each of its parts stands in `s` where the parts
/// before it end.
#[verifier::opaque]
pub open spec fn class_layout(s: Seq<u8>, p: int, cf: IOClassFile) -> bool {
    &&& cf.wf()
    &&& forall|k: nat|
        k < 16 ==> #[trigger] bytes_at(s, p + class_prefix(cf, k).len(), class_part(cf, k as int))
}

proof fn lemma_class_prefix_all(cf: IOClassFile)
    ensures
        class_prefix(cf, 16) == cf.spec_bytes(),
{
    reveal_with_fuel(class_prefix, 17);
    assert(class_prefix(cf, 16) =~= cf.spec_bytes());
}

proof fn lemma_class_parts(s: Seq<u8>, p: int, cf: IOClassFile, n: nat)
    requires
        n <= 16,
        bytes_at(s, p, class_prefix(cf, n)),
    ensures
        forall|k: nat|
            k < n ==> #[trigger] bytes_at(
                s,
                p + class_prefix(cf, k).len(),
                class_part(cf, k as int),
            ),
    decreases n,
{
    if n > 0 {
        let m = (n - 1) as nat;
        lemma_bytes_at_split(s, p, class_prefix(cf, m), class_part(cf, m as int));
        lemma_class_parts(s, p, cf, m);
    }
}

proof fn lemma_class_layout(s: Seq<u8>, p: int, cf: IOClassFile)
    requires
        class_file_at(s, p, cf),
    ensures
        class_layout(s, p, cf),
{
    reveal(class_file_at);
    lemma_class_prefix_all(cf);
    lemma_class_parts(s, p, cf, 16);
    reveal(class_layout);
}

proof fn lemma_layout_part(s: Seq<u8>, p: int, cf: IOClassFile, k: nat)
    requires
        class_layout(s, p, cf),
        k < 16,
    ensures
        cf.wf(),
        bytes_at(s, p + class_prefix(cf, k).len(), class_part(cf, k as int)),
{
    reveal(class_layout);
}

/// Writing back a class file that `read` returned gives exactly the bytes
/// that were read: `read` moved the cursor from `before` to `after` over
/// the bytes of `cf`, and `write` appends the bytes of `cf`. When the input
/// is exactly a well-formed class file, `read` consumes all of it, so the
/// bytes written are the whole input.
pub proof fn lemma_write_after_read<'a>(
    before: ByteReader<'a>,
    after: ByteReader<'a>,
    cf: IOClassFile,
    written: Seq<u8>,
)
    requires
        cf.wf(),
        advanced(before, after, cf.spec_bytes()),
        written == seq![] + cf.spec_bytes(),
    ensures
        written == before.data@.subrange(before.pos as int, after.pos as int),
        before.pos == 0 && after.pos == before.data@.len() ==> written == before.data@,
        cf.cp_count as int == cf.cp@.len() + 1,
{
    assert(seq![] + cf.spec_bytes() =~= cf.spec_bytes());
    assert(before.data@.subrange(0, before.data@.len() as int) =~= before.data@);
}

} // verus!
