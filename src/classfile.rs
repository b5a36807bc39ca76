//! The typed class file: the I/O model with its pool lifted and every index
//! and attribute resolved against it.
use vstd::prelude::*;
use crate::attribute::{attribute_lifted, simple_payload, IRAttributeInfo};
use crate::io::{IOAttributeInfo, IOClassFile, IOCpTag, IOFieldInfo, IOMethodInfo};
use crate::pool::{
    class_ref_in, entry_error, lemma_lifted_ref_error, pool_lifted, raw_ref_error, ref_error,
    utf8_ref_in, CPClassRef, CPUtf8Ref, IRClassfileError, IRCpTag,
};

verus! {

/// A class-file version, ordered by major version, then minor.
#[derive(Debug, Clone, Copy, PartialEq, Eq, Structural, Ord)]
pub struct ClassFileVersion {
    pub major: u16,
    pub minor: u16,
}

impl PartialOrd for ClassFileVersion {
    fn partial_cmp(&self, other: &Self) -> Option<core::cmp::Ordering> {
        if self.major < other.major {
            Some(core::cmp::Ordering::Less)
        } else if self.major > other.major {
            Some(core::cmp::Ordering::Greater)
        } else if self.minor < other.minor {
            Some(core::cmp::Ordering::Less)
        } else if self.minor > other.minor {
            Some(core::cmp::Ordering::Greater)
        } else {
            Some(core::cmp::Ordering::Equal)
        }
    }
}

impl vstd::std_specs::cmp::PartialOrdSpecImpl for ClassFileVersion {
    open spec fn obeys_partial_cmp_spec() -> bool {
        true
    }

    open spec fn partial_cmp_spec(&self, other: &Self) -> Option<core::cmp::Ordering> {
        if self.major < other.major {
            Some(core::cmp::Ordering::Less)
        } else if self.major > other.major {
            Some(core::cmp::Ordering::Greater)
        } else if self.minor < other.minor {
            Some(core::cmp::Ordering::Less)
        } else if self.minor > other.minor {
            Some(core::cmp::Ordering::Greater)
        } else {
            Some(core::cmp::Ordering::Equal)
        }
    }
}

/// The access-flag bits of classes, fields and methods.
pub struct AccessFlags;

impl AccessFlags {
    pub const PUBLIC: u16 = 0x0001;
    pub const FINAL: u16 = 0x0010;
    pub const SUPER: u16 = 0x0020;
    pub const INTERFACE: u16 = 0x0200;
    pub const ABSTRACT: u16 = 0x0400;
    pub const SYNTHETIC: u16 = 0x1000;
    pub const ANNOTATION: u16 = 0x2000;
    pub const ENUM: u16 = 0x4000;
    pub const MODULE: u16 = 0x8000;
}

/// Each attribute of `s` is the one of `raw` at the same place, decoded.
pub open spec fn attributes_lifted(
    cp: Seq<IRCpTag>,
    raw: Seq<IOAttributeInfo>,
    s: Seq<IRAttributeInfo>,
) -> bool {
    &&& s.len() == raw.len()
    &&& forall|i: int| 0 <= i < s.len() ==> #[trigger] attribute_lifted(cp, raw[i], s[i])
}

/// Decodes each attribute of `raw` against the typed pool.
fn lift_attributes(cp: &[IRCpTag], raw: &Vec<IOAttributeInfo>) -> (r: Result<
    Vec<IRAttributeInfo>,
    IRClassfileError,
>)
    requires
        forall|i: int| 0 <= i < raw@.len() ==> #[trigger] raw@[i].wf(),
    ensures
        r matches Ok(v) ==> attributes_lifted(cp@, raw@, v@),
        (forall|i: int| 0 <= i < raw@.len() ==> #[trigger] simple_payload(cp@, raw@[i]))
            ==> r is Ok,
{
    let mut v: Vec<IRAttributeInfo> = Vec::new();
    let mut i: usize = 0;
    while i < raw.len()
        invariant
            forall|j: int| 0 <= j < raw@.len() ==> #[trigger] raw@[j].wf(),
            i <= raw@.len(),
            v@.len() == i,
            forall|j: int| 0 <= j < i ==> #[trigger] attribute_lifted(cp@, raw@[j], v@[j]),
        decreases raw@.len() - i,
    {
        assert(raw@[i as int].wf());
        let a = IRAttributeInfo::from_io(cp, &raw[i])?;
        v.push(a);
        i = i + 1;
    }
    Ok(v)
}

/// `f` is the field `raw` with its name and descriptor resolved and its
/// attributes decoded.
pub open spec fn field_lifted(cp: Seq<IRCpTag>, raw: IOFieldInfo, f: IRFieldInfo) -> bool {
    &&& f.access_flags == raw.access_flags
    &&& utf8_ref_in(cp, raw.name_index, f.name)
    &&& utf8_ref_in(cp, raw.descriptor_index, f.descriptor)
    &&& attributes_lifted(cp, raw.attributes@, f.attributes@)
}

/// `m` is the method `raw` with its name and descriptor resolved and its
/// attributes decoded.
pub open spec fn method_lifted(cp: Seq<IRCpTag>, raw: IOMethodInfo, m: IRMethodInfo) -> bool {
    &&& m.access_flags == raw.access_flags
    &&& utf8_ref_in(cp, raw.name_index, m.name)
    &&& utf8_ref_in(cp, raw.descriptor_index, m.descriptor)
    &&& attributes_lifted(cp, raw.attributes@, m.attributes@)
}

/// The name and descriptor indices lead to `Utf8` slots and every attribute
/// is a simple attribute whose references resolve.
pub open spec fn member_resolves(
    cp: Seq<IRCpTag>,
    name_index: u16,
    descriptor_index: u16,
    attributes: Seq<IOAttributeInfo>,
) -> bool {
    &&& ref_error(cp, name_index, 1) is None
    &&& ref_error(cp, descriptor_index, 1) is None
    &&& forall|i: int| 0 <= i < attributes.len() ==> #[trigger] simple_payload(cp, attributes[i])
}

/// A field with its name and descriptor resolved and its attributes decoded.
#[derive(Debug)]
pub struct IRFieldInfo {
    pub access_flags: u16,
    pub name: CPUtf8Ref,
    pub descriptor: CPUtf8Ref,
    pub attributes: Vec<IRAttributeInfo>,
}

impl IRFieldInfo {
    /// Resolves the name and descriptor of `raw` and decodes its attributes.
    pub fn from_io(cp: &[IRCpTag], raw: &IOFieldInfo) -> (r: Result<IRFieldInfo, IRClassfileError>)
        requires
            raw.wf(),
        ensures
            r matches Ok(f) ==> field_lifted(cp@, *raw, f),
            ref_error(cp@, raw.name_index, 1) is Some ==> r == Err::<IRFieldInfo, IRClassfileError>(
                ref_error(cp@, raw.name_index, 1)->0,
            ),
            ref_error(cp@, raw.name_index, 1) is None && ref_error(cp@, raw.descriptor_index, 1)
                is Some ==> r == Err::<IRFieldInfo, IRClassfileError>(
                ref_error(cp@, raw.descriptor_index, 1)->0,
            ),
            member_resolves(cp@, raw.name_index, raw.descriptor_index, raw.attributes@) ==> r is Ok,
    {
        let name = CPUtf8Ref::from_cp(cp, raw.name_index)?;
        let descriptor = CPUtf8Ref::from_cp(cp, raw.descriptor_index)?;
        let attributes = lift_attributes(cp, &raw.attributes)?;
        Ok(IRFieldInfo { access_flags: raw.access_flags, name, descriptor, attributes })
    }
}

/// A method with its name and descriptor resolved and its attributes
/// decoded.
#[derive(Debug)]
pub struct IRMethodInfo {
    pub access_flags: u16,
    pub name: CPUtf8Ref,
    pub descriptor: CPUtf8Ref,
    pub attributes: Vec<IRAttributeInfo>,
}

impl IRMethodInfo {
    /// Resolves the name and descriptor of `raw` and decodes its attributes.
    pub fn from_io(cp: &[IRCpTag], raw: &IOMethodInfo) -> (r: Result<
        IRMethodInfo,
        IRClassfileError,
    >)
        requires
            raw.wf(),
        ensures
            r matches Ok(m) ==> method_lifted(cp@, *raw, m),
            ref_error(cp@, raw.name_index, 1) is Some ==> r == Err::<
                IRMethodInfo,
                IRClassfileError,
            >(ref_error(cp@, raw.name_index, 1)->0),
            ref_error(cp@, raw.name_index, 1) is None && ref_error(cp@, raw.descriptor_index, 1)
                is Some ==> r == Err::<IRMethodInfo, IRClassfileError>(
                ref_error(cp@, raw.descriptor_index, 1)->0,
            ),
            member_resolves(cp@, raw.name_index, raw.descriptor_index, raw.attributes@) ==> r is Ok,
    {
        let name = CPUtf8Ref::from_cp(cp, raw.name_index)?;
        let descriptor = CPUtf8Ref::from_cp(cp, raw.descriptor_index)?;
        let attributes = lift_attributes(cp, &raw.attributes)?;
        Ok(IRMethodInfo { access_flags: raw.access_flags, name, descriptor, attributes })
    }
}

/// Every slot of the raw pool lifts.
pub open spec fn pool_ok(raw: Seq<IOCpTag>) -> bool {
    forall|k: int| 0 <= k < raw.len() ==> #[trigger] entry_error(raw, k) is None
}

/// Against the lifted pool `ir`, every field and method has its name and
/// descriptor in `Utf8` slots and simple attributes that resolve, and so do
/// the class's attributes.
pub open spec fn parts_resolve(ir: Seq<IRCpTag>, raw: IOClassFile) -> bool {
    &&& forall|i: int|
        0 <= i < raw.fields@.len() ==> #[trigger] member_resolves(
            ir,
            raw.fields@[i].name_index,
            raw.fields@[i].descriptor_index,
            raw.fields@[i].attributes@,
        )
    &&& forall|i: int|
        0 <= i < raw.methods@.len() ==> #[trigger] member_resolves(
            ir,
            raw.methods@[i].name_index,
            raw.methods@[i].descriptor_index,
            raw.methods@[i].attributes@,
        )
    &&& forall|i: int|
        0 <= i < raw.attributes@.len() ==> #[trigger] simple_payload(ir, raw.attributes@[i])
}

/// Every slot of the pool lifts; this class, a non-zero super class and
/// each interface lead to `Class` slots; and the members and attributes
/// resolve against the lifted pool.
pub open spec fn class_file_resolves(raw: IOClassFile) -> bool {
    &&& pool_ok(raw.cp@)
    &&& raw_ref_error(raw.cp@, raw.this_class, 7) is None
    &&& (raw.super_class == 0 || raw_ref_error(raw.cp@, raw.super_class, 7) is None)
    &&& forall|i: int|
        0 <= i < raw.interfaces@.len() ==> #[trigger] raw_ref_error(
            raw.cp@,
            raw.interfaces@[i],
            7,
        ) is None
    &&& forall|ir: Seq<IRCpTag>| #[trigger] pool_lifted(raw.cp@, ir) ==> parts_resolve(ir, raw)
}

/// Resolves each interface index to a `Class` slot.
fn lift_interfaces(cp: &[IRCpTag], raw: &Vec<u16>) -> (r: Result<Vec<CPClassRef>, IRClassfileError>)
    ensures
        r matches Ok(v) ==> v@.len() == raw@.len() && forall|j: int|
            0 <= j < v@.len() ==> #[trigger] class_ref_in(cp@, raw@[j], v@[j]),
        (forall|j: int| 0 <= j < raw@.len() ==> #[trigger] ref_error(cp@, raw@[j], 7) is None)
            ==> r is Ok,
{
    let mut v: Vec<CPClassRef> = Vec::new();
    let mut i: usize = 0;
    while i < raw.len()
        invariant
            i <= raw@.len(),
            v@.len() == i,
            forall|j: int| 0 <= j < i ==> #[trigger] class_ref_in(cp@, raw@[j], v@[j]),
        decreases raw@.len() - i,
    {
        let c = CPClassRef::from_cp(cp, raw[i])?;
        v.push(c);
        i = i + 1;
    }
    Ok(v)
}

/// Lifts each field against the typed pool.
fn lift_fields(cp: &[IRCpTag], raw: &Vec<IOFieldInfo>) -> (r: Result<
    Vec<IRFieldInfo>,
    IRClassfileError,
>)
    requires
        forall|j: int| 0 <= j < raw@.len() ==> #[trigger] raw@[j].wf(),
    ensures
        r matches Ok(v) ==> v@.len() == raw@.len() && forall|j: int|
            0 <= j < v@.len() ==> #[trigger] field_lifted(cp@, raw@[j], v@[j]),
        (forall|j: int|
            0 <= j < raw@.len() ==> #[trigger] member_resolves(
                cp@,
                raw@[j].name_index,
                raw@[j].descriptor_index,
                raw@[j].attributes@,
            )) ==> r is Ok,
{
    let mut v: Vec<IRFieldInfo> = Vec::new();
    let mut i: usize = 0;
    while i < raw.len()
        invariant
            forall|j: int| 0 <= j < raw@.len() ==> #[trigger] raw@[j].wf(),
            i <= raw@.len(),
            v@.len() == i,
            forall|j: int| 0 <= j < i ==> #[trigger] field_lifted(cp@, raw@[j], v@[j]),
        decreases raw@.len() - i,
    {
        assert(raw@[i as int].wf());
        let f = IRFieldInfo::from_io(cp, &raw[i])?;
        v.push(f);
        i = i + 1;
    }
    Ok(v)
}

/// Lifts each method against the typed pool.
fn lift_methods(cp: &[IRCpTag], raw: &Vec<IOMethodInfo>) -> (r: Result<
    Vec<IRMethodInfo>,
    IRClassfileError,
>)
    requires
        forall|j: int| 0 <= j < raw@.len() ==> #[trigger] raw@[j].wf(),
    ensures
        r matches Ok(v) ==> v@.len() == raw@.len() && forall|j: int|
            0 <= j < v@.len() ==> #[trigger] method_lifted(cp@, raw@[j], v@[j]),
        (forall|j: int|
            0 <= j < raw@.len() ==> #[trigger] member_resolves(
                cp@,
                raw@[j].name_index,
                raw@[j].descriptor_index,
                raw@[j].attributes@,
            )) ==> r is Ok,
{
    let mut v: Vec<IRMethodInfo> = Vec::new();
    let mut i: usize = 0;
    while i < raw.len()
        invariant
            forall|j: int| 0 <= j < raw@.len() ==> #[trigger] raw@[j].wf(),
            i <= raw@.len(),
            v@.len() == i,
            forall|j: int| 0 <= j < i ==> #[trigger] method_lifted(cp@, raw@[j], v@[j]),
        decreases raw@.len() - i,
    {
        assert(raw@[i as int].wf());
        let m = IRMethodInfo::from_io(cp, &raw[i])?;
        v.push(m);
        i = i + 1;
    }
    Ok(v)
}

/// A whole class file with its pool lifted. A super-class index of 0, which
/// only the root class has, is `None`.
#[derive(Debug)]
pub struct IRClassFile {
    pub magic: u32,
    pub version: ClassFileVersion,
    pub cp: Vec<IRCpTag>,
    pub access_flags: u16,
    pub this_class: CPClassRef,
    pub super_class: Option<CPClassRef>,
    pub interfaces: Vec<CPClassRef>,
    pub fields: Vec<IRFieldInfo>,
    pub methods: Vec<IRMethodInfo>,
    pub attributes: Vec<IRAttributeInfo>,
}

impl IRClassFile {
    /// Lifts the pool of `raw`, then resolves this and super class,
    /// interfaces, fields, methods and attributes against it. A pool slot
    /// that cannot be lifted always fails the whole file.
    pub fn from_io(raw: IOClassFile) -> (r: Result<IRClassFile, IRClassfileError>)
        requires
            raw.wf(),
        ensures
            r matches Ok(ir) ==> {
                &&& ir.magic == raw.magic
                &&& ir.version == ClassFileVersion {
                    major: raw.major_version,
                    minor: raw.minor_version,
                }
                &&& ir.access_flags == raw.access_flags
                &&& pool_lifted(raw.cp@, ir.cp@)
                &&& class_ref_in(ir.cp@, raw.this_class, ir.this_class)
                &&& (raw.super_class == 0 <==> ir.super_class is None)
                &&& (ir.super_class matches Some(s) ==> class_ref_in(
                    ir.cp@,
                    raw.super_class,
                    s,
                ))
                &&& ir.interfaces@.len() == raw.interfaces@.len()
                &&& forall|i: int|
                    0 <= i < ir.interfaces@.len() ==> #[trigger] class_ref_in(
                        ir.cp@,
                        raw.interfaces@[i],
                        ir.interfaces@[i],
                    )
                &&& ir.fields@.len() == raw.fields@.len()
                &&& forall|i: int|
                    0 <= i < ir.fields@.len() ==> #[trigger] field_lifted(
                        ir.cp@,
                        raw.fields@[i],
                        ir.fields@[i],
                    )
                &&& ir.methods@.len() == raw.methods@.len()
                &&& forall|i: int|
                    0 <= i < ir.methods@.len() ==> #[trigger] method_lifted(
                        ir.cp@,
                        raw.methods@[i],
                        ir.methods@[i],
                    )
                &&& attributes_lifted(ir.cp@, raw.attributes@, ir.attributes@)
            },
            (exists|k: int| 0 <= k < raw.cp@.len() && #[trigger] entry_error(raw.cp@, k) is Some)
                ==> r is Err,
            forall|k: int|
                0 <= k < raw.cp@.len() && #[trigger] entry_error(raw.cp@, k) is Some && (forall|
                    j: int,
                | 0 <= j < k ==> entry_error(raw.cp@, j) is None) ==> r == Err::<
                    IRClassFile,
                    IRClassfileError,
                >(entry_error(raw.cp@, k)->0),
            pool_ok(raw.cp@) && raw_ref_error(raw.cp@, raw.this_class, 7) is Some ==> r == Err::<
                IRClassFile,
                IRClassfileError,
            >(raw_ref_error(raw.cp@, raw.this_class, 7)->0),
            pool_ok(raw.cp@) && raw_ref_error(raw.cp@, raw.this_class, 7) is None
                && raw.super_class != 0 && raw_ref_error(raw.cp@, raw.super_class, 7) is Some
                ==> r == Err::<IRClassFile, IRClassfileError>(
                raw_ref_error(raw.cp@, raw.super_class, 7)->0,
            ),
            class_file_resolves(raw) ==> r is Ok,
    {
        let ghost res = class_file_resolves(raw);
        let magic = raw.magic;
        let version = ClassFileVersion { major: raw.major_version, minor: raw.minor_version };
        let access_flags = raw.access_flags;
        let ghost raw_cp = raw.cp@;
        let cp = match IRCpTag::from_io(raw.cp) {
            Ok(c) => c,
            Err(e) => {
                proof {
                    let k2 = choose|k2: int|
                        0 <= k2 < raw_cp.len() && entry_error(raw_cp, k2) == Some(e) && forall|
                            j: int,
                        | 0 <= j < k2 ==> #[trigger] entry_error(raw_cp, j) is None;
                    assert forall|k: int|
                        0 <= k < raw_cp.len() && #[trigger] entry_error(raw_cp, k) is Some && (
                        forall|j: int| 0 <= j < k ==> entry_error(raw_cp, j) is None)
                        implies entry_error(raw_cp, k) == Some(e) by {
                        if k < k2 {
                            assert(entry_error(raw_cp, k) is None);
                        } else if k2 < k {
                            assert(entry_error(raw_cp, k2) is None);
                        }
                    }
                }
                return Err(e);
            },
        };
        proof {
            lemma_lifted_ref_error(raw_cp, cp@, raw.this_class, 7);
            lemma_lifted_ref_error(raw_cp, cp@, raw.super_class, 7);
            if res {
                assert(pool_lifted(raw_cp, cp@));
                assert(parts_resolve(cp@, raw));
            }
        }
        let this_class = CPClassRef::from_cp(cp.as_slice(), raw.this_class)?;
        let super_class = if raw.super_class == 0 {
            None
        } else {
            Some(CPClassRef::from_cp(cp.as_slice(), raw.super_class)?)
        };
        proof {
            if res {
                assert forall|i: int| 0 <= i < raw.interfaces@.len() implies #[trigger] ref_error(
                    cp@,
                    raw.interfaces@[i],
                    7,
                ) is None by {
                    lemma_lifted_ref_error(raw_cp, cp@, raw.interfaces@[i], 7);
                }
            }
        }
        let interfaces = lift_interfaces(cp.as_slice(), &raw.interfaces)?;
        let fields = lift_fields(cp.as_slice(), &raw.fields)?;
        let methods = lift_methods(cp.as_slice(), &raw.methods)?;
        let attributes = lift_attributes(cp.as_slice(), &raw.attributes)?;
        Ok(
            IRClassFile {
                magic,
                version,
                cp,
                access_flags,
                this_class,
                super_class,
                interfaces,
                fields,
                methods,
                attributes,
            },
        )
    }
}

} // verus!
