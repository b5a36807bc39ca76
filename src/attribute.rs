//! Decoders for the payloads of attributes, dispatched on the attribute's
//! name; each decoder consumes the whole payload.
use vstd::prelude::*;
use crate::bytes::{
    advanced, bytes_at, concat_bytes, lemma_advanced_chain, lemma_bytes_at_split,
    lemma_concat_item_at, lemma_u16_at_bytes, lemma_u32_at_bytes, u16_at, u16_bytes, u32_at,
    u32_bytes, write_u16, write_u8,
    ByteReader, BytesError,
};
use crate::io::IOAttributeInfo;
use crate::pool::{
    class_ref_in, name_and_type_ref_in, ref_error, same_utf8, utf8_ref_in, CPClassRef,
    CPNameAndTypeRef, CPUtf8Ref, IRClassfileError, IRCpTag,
};

verus! {

/// The verification type of one local or stack slot.
#[derive(Debug, Clone, Copy, PartialEq, Eq, Structural)]
pub enum VerificationTypeInfo {
    TopVariableInfo,
    IntegerVariableInfo,
    FloatVariableInfo,
    LongVariableInfo,
    DoubleVariableInfo,
    NullVariableInfo,
    UninitializedThisVariableInfo,
    ObjectVariableInfo { cpool_idx: u16 },
    UninitializedVariableInfo { offset: u16 },
}

/// How many bytes a verification type with tag `t` takes.
pub open spec fn vti_size(t: u8) -> int {
    if t == 7 || t == 8 {
        3
    } else {
        1
    }
}

impl VerificationTypeInfo {
    /// The tag byte: `Double` is 3 and `Long` is 4.
    pub open spec fn spec_tag(&self) -> u8 {
        match self {
            VerificationTypeInfo::TopVariableInfo => 0,
            VerificationTypeInfo::IntegerVariableInfo => 1,
            VerificationTypeInfo::FloatVariableInfo => 2,
            VerificationTypeInfo::DoubleVariableInfo => 3,
            VerificationTypeInfo::LongVariableInfo => 4,
            VerificationTypeInfo::NullVariableInfo => 5,
            VerificationTypeInfo::UninitializedThisVariableInfo => 6,
            VerificationTypeInfo::ObjectVariableInfo { .. } => 7,
            VerificationTypeInfo::UninitializedVariableInfo { .. } => 8,
        }
    }

    /// The bytes of the entry: its tag, then an index or offset for the two
    /// kinds that carry one.
    pub open spec fn spec_bytes(&self) -> Seq<u8> {
        match self {
            VerificationTypeInfo::ObjectVariableInfo { cpool_idx } => seq![7u8] + u16_bytes(
                *cpool_idx,
            ),
            VerificationTypeInfo::UninitializedVariableInfo { offset } => seq![8u8] + u16_bytes(
                *offset,
            ),
            _ => seq![self.spec_tag()],
        }
    }

    /// Reads one entry; a tag above 8 is refused.
    pub fn read(buffer: &mut ByteReader) -> (r: Result<VerificationTypeInfo, IRClassfileError>)
        ensures
            final(buffer).data@ == old(buffer).data@,
            r matches Ok(v) ==> advanced(*old(buffer), *final(buffer), v.spec_bytes()),
            old(buffer).pos < old(buffer).data@.len() && old(buffer).data@[old(buffer).pos as int]
                > 8 ==> r == Err::<VerificationTypeInfo, IRClassfileError>(
                IRClassfileError::UnknownVerificationTypeTag(
                    old(buffer).data@[old(buffer).pos as int],
                ),
            ),
            r matches Err(e) ==> e == IRClassfileError::Bytes(BytesError::NotEnoughData) || e
                is UnknownVerificationTypeTag,
            r is Ok <==> old(buffer).pos < old(buffer).data@.len() && old(buffer).data@[old(
                buffer,
            ).pos as int] <= 8 && old(buffer).pos + vti_size(
                old(buffer).data@[old(buffer).pos as int],
            ) <= old(buffer).data@.len(),
            r matches Ok(v) ==> v.spec_bytes().len() == vti_size(
                old(buffer).data@[old(buffer).pos as int],
            ),
    {
        let ghost r0 = *buffer;
        let tag = read_u8_ir(buffer)?;
        let ghost r1 = *buffer;
        if tag == 7 || tag == 8 {
            let v = read_u16_ir(buffer)?;
            proof {
                lemma_advanced_chain(r0, r1, *buffer, seq![tag], u16_bytes(v));
            }
            if tag == 7 {
                Ok(VerificationTypeInfo::ObjectVariableInfo { cpool_idx: v })
            } else {
                Ok(VerificationTypeInfo::UninitializedVariableInfo { offset: v })
            }
        } else {
            match tag {
                0 => Ok(VerificationTypeInfo::TopVariableInfo),
                1 => Ok(VerificationTypeInfo::IntegerVariableInfo),
                2 => Ok(VerificationTypeInfo::FloatVariableInfo),
                3 => Ok(VerificationTypeInfo::DoubleVariableInfo),
                4 => Ok(VerificationTypeInfo::LongVariableInfo),
                5 => Ok(VerificationTypeInfo::NullVariableInfo),
                6 => Ok(VerificationTypeInfo::UninitializedThisVariableInfo),
                _ => Err(IRClassfileError::UnknownVerificationTypeTag(tag)),
            }
        }
    }

    /// Appends the bytes of the entry.
    pub fn write(&self, out: &mut Vec<u8>)
        ensures
            final(out)@ == old(out)@ + self.spec_bytes(),
    {
        let ghost start = out@;
        match self {
            VerificationTypeInfo::TopVariableInfo => write_u8(out, 0),
            VerificationTypeInfo::IntegerVariableInfo => write_u8(out, 1),
            VerificationTypeInfo::FloatVariableInfo => write_u8(out, 2),
            VerificationTypeInfo::DoubleVariableInfo => write_u8(out, 3),
            VerificationTypeInfo::LongVariableInfo => write_u8(out, 4),
            VerificationTypeInfo::NullVariableInfo => write_u8(out, 5),
            VerificationTypeInfo::UninitializedThisVariableInfo => write_u8(out, 6),
            VerificationTypeInfo::ObjectVariableInfo { cpool_idx } => {
                write_u8(out, 7);
                write_u16(out, *cpool_idx);
            },
            VerificationTypeInfo::UninitializedVariableInfo { offset } => {
                write_u8(out, 8);
                write_u16(out, *offset);
            },
        }
        assert(out@ =~= start + self.spec_bytes());
    }
}

/// The bytes of a sequence of verification types, one after the other.
pub open spec fn vtis_bytes(s: Seq<VerificationTypeInfo>) -> Seq<u8> {
    concat_bytes(s, |v: VerificationTypeInfo| v.spec_bytes())
}

/// Where a verification type stands, its tag byte is there, with the size
/// that tag gives.
proof fn lemma_vti_at(s: Seq<u8>, p: int, v: VerificationTypeInfo)
    requires
        bytes_at(s, p, v.spec_bytes()),
    ensures
        p < s.len(),
        s[p] == v.spec_tag(),
        s[p] <= 8,
        vti_size(s[p]) == v.spec_bytes().len(),
{
    assert(s[p] == s.subrange(p, p + v.spec_bytes().len())[0]);
}

proof fn lemma_vtis_step(data: Seq<u8>, p: int, w: Seq<VerificationTypeInfo>, i: int)
    requires
        bytes_at(data, p, vtis_bytes(w)),
        0 <= i < w.len(),
    ensures
        bytes_at(data, p + vtis_bytes(w.take(i)).len(), w[i].spec_bytes()),
        vtis_bytes(w.take(i + 1)) == vtis_bytes(w.take(i)) + w[i].spec_bytes(),
{
    let f = |v: VerificationTypeInfo| v.spec_bytes();
    assert(vtis_bytes(w) == concat_bytes(w, f));
    lemma_concat_item_at(data, p, w, f, i);
    assert(vtis_bytes(w.take(i)) == concat_bytes(w.take(i), f));
    assert(vtis_bytes(w.take(i + 1)) == concat_bytes(w.take(i + 1), f));
}

/// Reads `count` verification types one after another.
fn read_vtis(
    buffer: &mut ByteReader,
    count: usize,
    Ghost(w): Ghost<Option<Seq<VerificationTypeInfo>>>,
) -> (r: Result<Vec<VerificationTypeInfo>, IRClassfileError>)
    requires
        old(buffer).wf(),
    ensures
        final(buffer).data@ == old(buffer).data@,
        r matches Ok(v) ==> v@.len() == count && advanced(
            *old(buffer),
            *final(buffer),
            vtis_bytes(v@),
        ),
        w is Some && w->0.len() == count && bytes_at(
            old(buffer).data@,
            old(buffer).pos as int,
            vtis_bytes(w->0),
        ) ==> (r matches Ok(v) && vtis_bytes(v@) == vtis_bytes(w->0)),
{
    let ghost r0 = *buffer;
    let ghost d = r0.data@;
    let ghost aligned = w is Some && w->0.len() == count && bytes_at(
        d,
        r0.pos as int,
        vtis_bytes(w->0),
    );
    let ghost wv = w->0;
    let mut v: Vec<VerificationTypeInfo> = Vec::new();
    let mut i: usize = 0;
    proof {
        assert(r0.data@.subrange(r0.pos as int, r0.pos as int) =~= seq![]);
    }
    proof {
        if aligned {
            assert(wv.take(0) =~= seq![]);
        }
    }
    while i < count
        invariant
            r0 == *old(buffer),
            d == r0.data@,
            aligned == (w is Some && w->0.len() == count && bytes_at(
                d,
                r0.pos as int,
                vtis_bytes(w->0),
            )),
            wv == w->0,
            buffer.data@ == r0.data@,
            i <= count,
            v@.len() == i,
            advanced(r0, *buffer, vtis_bytes(v@)),
            aligned ==> vtis_bytes(v@) == vtis_bytes(wv.take(i as int)),
        decreases count - i,
    {
        let ghost r1 = *buffer;
        let ghost before = v@;
        proof {
            if aligned {
                lemma_vtis_step(d, r0.pos as int, wv, i as int);
                lemma_vti_at(d, r1.pos as int, wv[i as int]);
            }
        }
        let t = VerificationTypeInfo::read(buffer)?;
        proof {
            lemma_advanced_chain(r0, r1, *buffer, vtis_bytes(before), t.spec_bytes());
            if aligned {
                assert(t.spec_bytes() =~= wv[i as int].spec_bytes());
            }
        }
        v.push(t);
        proof {
            assert(v@.drop_last() =~= before);
        }
        i = i + 1;
    }
    proof {
        if aligned {
            assert(wv.take(i as int) =~= wv);
        }
    }
    Ok(v)
}

/// Appends the bytes of each verification type in turn.
fn write_vtis(v: &Vec<VerificationTypeInfo>, out: &mut Vec<u8>)
    ensures
        final(out)@ == old(out)@ + vtis_bytes(v@),
{
    let mut i: usize = 0;
    while i < v.len()
        invariant
            i <= v@.len(),
            out@ == old(out)@ + vtis_bytes(v@.subrange(0, i as int)),
        decreases v@.len() - i,
    {
        v[i].write(out);
        proof {
            assert(v@.subrange(0, i + 1).drop_last() =~= v@.subrange(0, i as int));
            assert(out@ =~= old(out)@ + vtis_bytes(v@.subrange(0, i + 1)));
        }
        i = i + 1;
    }
    assert(v@.subrange(0, i as int) =~= v@);
}

/// The kinds of stack-map frame.
#[derive(Debug, Clone, Copy, PartialEq, Eq, Structural)]
pub enum FrameKind {
    Same,
    SameLocals1StackItem,
    SameLocals1StackItemExtended,
    Chop,
    SameExtended,
    Append,
    Full,
}

/// The kind that a frame tag selects, or none for the reserved tags
/// `128..=246`.
pub open spec fn frame_kind_of(t: u8) -> Option<FrameKind> {
    if t <= 63 {
        Some(FrameKind::Same)
    } else if t <= 127 {
        Some(FrameKind::SameLocals1StackItem)
    } else if t <= 246 {
        None
    } else if t == 247 {
        Some(FrameKind::SameLocals1StackItemExtended)
    } else if t <= 250 {
        Some(FrameKind::Chop)
    } else if t == 251 {
        Some(FrameKind::SameExtended)
    } else if t <= 254 {
        Some(FrameKind::Append)
    } else {
        Some(FrameKind::Full)
    }
}

/// One stack-map frame, with the tag it was read with.
#[derive(Debug)]
pub enum StackMapFrame {
    SameFrame { frame_type: u8, offset_delta: u16 },
    SameLocals1StackItemFrame { frame_type: u8, offset_delta: u16, stack: VerificationTypeInfo },
    SameLocals1StackItemFrameExtended {
        frame_type: u8,
        offset_delta: u16,
        stack: VerificationTypeInfo,
    },
    ChopFrame { frame_type: u8, offset_delta: u16 },
    SameFrameExtended { frame_type: u8, offset_delta: u16 },
    AppendFrame { frame_type: u8, offset_delta: u16, locals: Vec<VerificationTypeInfo> },
    FullFrame {
        frame_type: u8,
        offset_delta: u16,
        locals: Vec<VerificationTypeInfo>,
        stack: Vec<VerificationTypeInfo>,
    },
}

impl StackMapFrame {
    /// The tag the frame was read with.
    pub open spec fn spec_frame_type(&self) -> u8 {
        match self {
            StackMapFrame::SameFrame { frame_type, .. } => *frame_type,
            StackMapFrame::SameLocals1StackItemFrame { frame_type, .. } => *frame_type,
            StackMapFrame::SameLocals1StackItemFrameExtended { frame_type, .. } => *frame_type,
            StackMapFrame::ChopFrame { frame_type, .. } => *frame_type,
            StackMapFrame::SameFrameExtended { frame_type, .. } => *frame_type,
            StackMapFrame::AppendFrame { frame_type, .. } => *frame_type,
            StackMapFrame::FullFrame { frame_type, .. } => *frame_type,
        }
    }

    /// The kind of the frame.
    pub open spec fn kind(&self) -> FrameKind {
        match self {
            StackMapFrame::SameFrame { .. } => FrameKind::Same,
            StackMapFrame::SameLocals1StackItemFrame { .. } => FrameKind::SameLocals1StackItem,
            StackMapFrame::SameLocals1StackItemFrameExtended { .. } =>
                FrameKind::SameLocals1StackItemExtended,
            StackMapFrame::ChopFrame { .. } => FrameKind::Chop,
            StackMapFrame::SameFrameExtended { .. } => FrameKind::SameExtended,
            StackMapFrame::AppendFrame { .. } => FrameKind::Append,
            StackMapFrame::FullFrame { .. } => FrameKind::Full,
        }
    }

    /// How many verification types the frame carries.
    pub open spec fn vti_count(&self) -> int {
        match self {
            StackMapFrame::SameLocals1StackItemFrame { .. } => 1,
            StackMapFrame::SameLocals1StackItemFrameExtended { .. } => 1,
            StackMapFrame::AppendFrame { locals, .. } => locals@.len() as int,
            StackMapFrame::FullFrame { locals, stack, .. } => (locals@.len() + stack@.len()) as int,
            _ => 0,
        }
    }

    /// The kind is the one the tag selects; the short forms carry their
    /// offset in the tag; an append frame carries `tag - 251` locals; the
    /// lists of a full frame fit their `u16` counts.
    pub open spec fn wf(&self) -> bool {
        &&& frame_kind_of(self.spec_frame_type()) == Some(self.kind())
        &&& match self {
            StackMapFrame::SameFrame { frame_type, offset_delta } => *offset_delta
                == *frame_type as u16,
            StackMapFrame::SameLocals1StackItemFrame { frame_type, offset_delta, .. } =>
                *offset_delta == (*frame_type - 64) as u16,
            StackMapFrame::AppendFrame { frame_type, locals, .. } => locals@.len() == *frame_type
                - 251,
            StackMapFrame::FullFrame { locals, stack, .. } => locals@.len() <= u16::MAX
                && stack@.len() <= u16::MAX,
            _ => true,
        }
    }

    /// The bytes of the frame: its tag, then what that kind carries.
    pub open spec fn spec_bytes(&self) -> Seq<u8> {
        match self {
            StackMapFrame::SameFrame { frame_type, .. } => seq![*frame_type],
            StackMapFrame::SameLocals1StackItemFrame { frame_type, stack, .. } => seq![*frame_type]
                + stack.spec_bytes(),
            StackMapFrame::SameLocals1StackItemFrameExtended { frame_type, offset_delta, stack } =>
                seq![*frame_type] + u16_bytes(*offset_delta) + stack.spec_bytes(),
            StackMapFrame::ChopFrame { frame_type, offset_delta } => seq![*frame_type] + u16_bytes(
                *offset_delta,
            ),
            StackMapFrame::SameFrameExtended { frame_type, offset_delta } => seq![*frame_type]
                + u16_bytes(*offset_delta),
            StackMapFrame::AppendFrame { frame_type, offset_delta, locals } => seq![*frame_type]
                + u16_bytes(*offset_delta) + vtis_bytes(locals@),
            StackMapFrame::FullFrame { frame_type, offset_delta, locals, stack } => seq![
                *frame_type,
            ] + u16_bytes(*offset_delta) + u16_bytes(locals@.len() as u16) + vtis_bytes(locals@)
                + u16_bytes(stack@.len() as u16) + vtis_bytes(stack@),
        }
    }

    /// Reads one frame: the tag selects the kind, the offset and how many
    /// verification types follow; a reserved tag is refused.
    pub fn new(attribute_data: &mut ByteReader) -> (r: Result<StackMapFrame, IRClassfileError>)
        requires
            old(attribute_data).wf(),
        ensures
            final(attribute_data).data@ == old(attribute_data).data@,
            r matches Ok(f) ==> f.wf() && advanced(
                *old(attribute_data),
                *final(attribute_data),
                f.spec_bytes(),
            ),
            old(attribute_data).pos < old(attribute_data).data@.len() && frame_kind_of(
                old(attribute_data).data@[old(attribute_data).pos as int],
            ) is None ==> r == Err::<StackMapFrame, IRClassfileError>(
                IRClassfileError::UnknownStackMapFrameTag(
                    old(attribute_data).data@[old(attribute_data).pos as int],
                ),
            ),
            (exists|f: StackMapFrame|
                f.wf() && #[trigger] bytes_at(
                    old(attribute_data).data@,
                    old(attribute_data).pos as int,
                    f.spec_bytes(),
                )) ==> r is Ok,
    {
        let ghost d = attribute_data.data@;
        let ghost p = attribute_data.pos as int;
        let ghost has = exists|f: StackMapFrame|
            f.wf() && #[trigger] bytes_at(d, p, f.spec_bytes());
        let ghost w = choose|f: StackMapFrame| f.wf() && #[trigger] bytes_at(d, p, f.spec_bytes());
        read_frame(
            attribute_data,
            Ghost(
                if has {
                    Some(w)
                } else {
                    None
                },
            ),
        )
    }

    /// Appends the bytes of the frame; full-frame counts are the list
    /// lengths.
    pub fn write(&self, out: &mut Vec<u8>)
        requires
            self.wf(),
        ensures
            final(out)@ == old(out)@ + self.spec_bytes(),
    {
        let ghost start = out@;
        match self {
            StackMapFrame::SameFrame { frame_type, .. } => {
                write_u8(out, *frame_type);
            },
            StackMapFrame::SameLocals1StackItemFrame { frame_type, stack, .. } => {
                write_u8(out, *frame_type);
                stack.write(out);
            },
            StackMapFrame::SameLocals1StackItemFrameExtended {
                frame_type,
                offset_delta,
                stack,
            } => {
                write_u8(out, *frame_type);
                write_u16(out, *offset_delta);
                stack.write(out);
            },
            StackMapFrame::ChopFrame { frame_type, offset_delta } => {
                write_u8(out, *frame_type);
                write_u16(out, *offset_delta);
            },
            StackMapFrame::SameFrameExtended { frame_type, offset_delta } => {
                write_u8(out, *frame_type);
                write_u16(out, *offset_delta);
            },
            StackMapFrame::AppendFrame { frame_type, offset_delta, locals } => {
                write_u8(out, *frame_type);
                write_u16(out, *offset_delta);
                write_vtis(locals, out);
            },
            StackMapFrame::FullFrame { frame_type, offset_delta, locals, stack } => {
                write_u8(out, *frame_type);
                write_u16(out, *offset_delta);
                write_u16(out, locals.len() as u16);
                write_vtis(locals, out);
                write_u16(out, stack.len() as u16);
                write_vtis(stack, out);
            },
        }
        assert(out@ =~= start + self.spec_bytes());
    }
}

/// A frame's kind is the one its tag selects, and the number of
/// verification types it carries is 1 for the two one-item kinds, `t - 251`
/// for an append frame of tag `t`, the two counts together for a full
/// frame, and 0 otherwise.
pub proof fn lemma_frame_shape(f: StackMapFrame)
    requires
        f.wf(),
    ensures
        frame_kind_of(f.spec_frame_type()) == Some(f.kind()),
        f.kind() == FrameKind::SameLocals1StackItem ==> f.vti_count() == 1,
        f.kind() == FrameKind::SameLocals1StackItemExtended ==> f.vti_count() == 1,
        f.kind() == FrameKind::Append ==> f.vti_count() == f.spec_frame_type() - 251,
        f.kind() == FrameKind::Same || f.kind() == FrameKind::Chop || f.kind()
            == FrameKind::SameExtended ==> f.vti_count() == 0,
{
}

/// Reads one frame. Where the input holds the well-formed frame `w`, it
/// reads a frame with its bytes.
#[verifier::rlimit(60)]
fn read_frame(
    attribute_data: &mut ByteReader,
    Ghost(w): Ghost<Option<StackMapFrame>>,
) -> (r: Result<StackMapFrame, IRClassfileError>)
    requires
        old(attribute_data).wf(),
    ensures
        final(attribute_data).data@ == old(attribute_data).data@,
        r matches Ok(f) ==> f.wf() && advanced(
            *old(attribute_data),
            *final(attribute_data),
            f.spec_bytes(),
        ),
        old(attribute_data).pos < old(attribute_data).data@.len() && frame_kind_of(
            old(attribute_data).data@[old(attribute_data).pos as int],
        ) is None ==> r == Err::<StackMapFrame, IRClassfileError>(
            IRClassfileError::UnknownStackMapFrameTag(
                old(attribute_data).data@[old(attribute_data).pos as int],
            ),
        ),
        w is Some && w->0.wf() && bytes_at(
            old(attribute_data).data@,
            old(attribute_data).pos as int,
            w->0.spec_bytes(),
        ) ==> (r matches Ok(f) && f.spec_bytes() == w->0.spec_bytes()),
{
    let ghost r0 = *attribute_data;
    let ghost d = r0.data@;
    let ghost p = r0.pos as int;
    let ghost aligned = w is Some && w->0.wf() && bytes_at(d, p, w->0.spec_bytes());
    let ghost f = w->0;
    proof {
        if aligned {
            assert(d[p] == d.subrange(p, p + f.spec_bytes().len())[0]);
            assert(d[p] == f.spec_frame_type());
        }
    }
    let frame_type = read_u8_ir(attribute_data)?;
    let ghost r1 = *attribute_data;
    let ghost head = seq![frame_type];
    if frame_type <= 63 {
        Ok(StackMapFrame::SameFrame { frame_type, offset_delta: frame_type as u16 })
    } else if frame_type <= 127 {
        proof {
            if aligned {
                let stack = f->SameLocals1StackItemFrame_stack;
                lemma_bytes_at_split(d, p, seq![frame_type], stack.spec_bytes());
                lemma_vti_at(d, p + 1, stack);
            }
        }
        let stack = VerificationTypeInfo::read(attribute_data)?;
        proof {
            lemma_advanced_chain(r0, r1, *attribute_data, head, stack.spec_bytes());
            if aligned {
                assert(stack.spec_bytes() =~= f->SameLocals1StackItemFrame_stack.spec_bytes());
            }
        }
        Ok(
            StackMapFrame::SameLocals1StackItemFrame {
                frame_type,
                offset_delta: (frame_type - 64) as u16,
                stack,
            },
        )
    } else if frame_type <= 246 {
        Err(IRClassfileError::UnknownStackMapFrameTag(frame_type))
    } else {
        let ghost off: u16 = match f {
            StackMapFrame::SameLocals1StackItemFrameExtended { offset_delta, .. } => offset_delta,
            StackMapFrame::ChopFrame { offset_delta, .. } => offset_delta,
            StackMapFrame::SameFrameExtended { offset_delta, .. } => offset_delta,
            StackMapFrame::AppendFrame { offset_delta, .. } => offset_delta,
            StackMapFrame::FullFrame { offset_delta, .. } => offset_delta,
            _ => 0,
        };
        let ghost rest = f.spec_bytes().subrange(3, f.spec_bytes().len() as int);
        proof {
            if aligned {
                assert(f.spec_bytes() =~= seq![frame_type] + u16_bytes(off) + rest);
                lemma_bytes_at_split(d, p, seq![frame_type] + u16_bytes(off), rest);
                lemma_bytes_at_split(d, p, seq![frame_type], u16_bytes(off));
                lemma_u16_at_bytes(d, p + 1, off);
            }
        }
        let offset_delta = read_u16_ir(attribute_data)?;
        let ghost r2 = *attribute_data;
        proof {
            lemma_advanced_chain(r0, r1, r2, head, u16_bytes(offset_delta));
        }
        let ghost acc = head + u16_bytes(offset_delta);
        if frame_type == 247 {
            proof {
                if aligned {
                    let stack = f->SameLocals1StackItemFrameExtended_stack;
                    assert(rest =~= stack.spec_bytes());
                    lemma_vti_at(d, p + 3, stack);
                }
            }
            let stack = VerificationTypeInfo::read(attribute_data)?;
            proof {
                lemma_advanced_chain(r0, r2, *attribute_data, acc, stack.spec_bytes());
                if aligned {
                    assert(stack.spec_bytes() =~= rest);
                }
            }
            Ok(
                StackMapFrame::SameLocals1StackItemFrameExtended {
                    frame_type,
                    offset_delta,
                    stack,
                },
            )
        } else if frame_type <= 250 {
            Ok(StackMapFrame::ChopFrame { frame_type, offset_delta })
        } else if frame_type == 251 {
            Ok(StackMapFrame::SameFrameExtended { frame_type, offset_delta })
        } else if frame_type <= 254 {
            proof {
                if aligned {
                    assert(rest =~= vtis_bytes(f->AppendFrame_locals@));
                }
            }
            let locals = read_vtis(
                attribute_data,
                (frame_type - 251) as usize,
                Ghost(
                    if aligned {
                        Some(f->AppendFrame_locals@)
                    } else {
                        None
                    },
                ),
            )?;
            proof {
                lemma_advanced_chain(r0, r2, *attribute_data, acc, vtis_bytes(locals@));
            }
            Ok(StackMapFrame::AppendFrame { frame_type, offset_delta, locals })
        } else {
            let ghost wl = f->FullFrame_locals@;
            let ghost ws = f->FullFrame_stack@;
            proof {
                if aligned {
                    assert(rest =~= u16_bytes(wl.len() as u16) + vtis_bytes(wl) + u16_bytes(
                        ws.len() as u16,
                    ) + vtis_bytes(ws));
                    lemma_bytes_at_split(
                        d,
                        p + 3,
                        u16_bytes(wl.len() as u16) + vtis_bytes(wl) + u16_bytes(ws.len() as u16),
                        vtis_bytes(ws),
                    );
                    lemma_bytes_at_split(
                        d,
                        p + 3,
                        u16_bytes(wl.len() as u16) + vtis_bytes(wl),
                        u16_bytes(ws.len() as u16),
                    );
                    lemma_bytes_at_split(d, p + 3, u16_bytes(wl.len() as u16), vtis_bytes(wl));
                    lemma_u16_at_bytes(d, p + 3, wl.len() as u16);
                    lemma_u16_at_bytes(d, p + 5 + vtis_bytes(wl).len(), ws.len() as u16);
                }
            }
            let n_locals = read_u16_ir(attribute_data)?;
            let ghost r3 = *attribute_data;
            let locals = read_vtis(
                attribute_data,
                n_locals as usize,
                Ghost(
                    if aligned {
                        Some(wl)
                    } else {
                        None
                    },
                ),
            )?;
            let ghost r4 = *attribute_data;
            let n_stack = read_u16_ir(attribute_data)?;
            let ghost r5 = *attribute_data;
            let stack = read_vtis(
                attribute_data,
                n_stack as usize,
                Ghost(
                    if aligned {
                        Some(ws)
                    } else {
                        None
                    },
                ),
            )?;
            proof {
                lemma_advanced_chain(r0, r2, r3, acc, u16_bytes(n_locals));
                let a2 = acc + u16_bytes(n_locals);
                lemma_advanced_chain(r0, r3, r4, a2, vtis_bytes(locals@));
                let a3 = a2 + vtis_bytes(locals@);
                lemma_advanced_chain(r0, r4, r5, a3, u16_bytes(n_stack));
                let a4 = a3 + u16_bytes(n_stack);
                lemma_advanced_chain(r0, r5, *attribute_data, a4, vtis_bytes(stack@));
            }
            Ok(StackMapFrame::FullFrame { frame_type, offset_delta, locals, stack })
        }
    }
}

fn read_u8_ir(buffer: &mut ByteReader) -> (r: Result<u8, IRClassfileError>)
    ensures
        final(buffer).data@ == old(buffer).data@,
        match r {
            Ok(v) => advanced(*old(buffer), *final(buffer), seq![v]) && v == old(
                buffer,
            ).data@[old(buffer).pos as int],
            Err(e) => e == IRClassfileError::Bytes(BytesError::NotEnoughData) && old(buffer).pos
                + 1 > old(buffer).data@.len(),
        },
{
    match buffer.read_u8() {
        Ok(v) => Ok(v),
        Err(e) => Err(IRClassfileError::Bytes(e)),
    }
}

fn read_u16_ir(buffer: &mut ByteReader) -> (r: Result<u16, IRClassfileError>)
    ensures
        final(buffer).data@ == old(buffer).data@,
        match r {
            Ok(v) => advanced(*old(buffer), *final(buffer), u16_bytes(v)) && v == u16_at(
                old(buffer).data@,
                old(buffer).pos as int,
            ),
            Err(e) => e == IRClassfileError::Bytes(BytesError::NotEnoughData) && old(buffer).pos
                + 2 > old(buffer).data@.len(),
        },
{
    match buffer.read_u16() {
        Ok(v) => Ok(v),
        Err(e) => Err(IRClassfileError::Bytes(e)),
    }
}


/// The tags of an annotation element that stand for a constant-pool index:
/// `B C D F I J S Z s`.
pub open spec fn const_value_tag(t: u8) -> bool {
    t == 0x42 || t == 0x43 || t == 0x44 || t == 0x46 || t == 0x49 || t == 0x4A || t == 0x53 || t
        == 0x5A || t == 0x73
}

/// The value of one annotation element.
#[derive(Debug)]
pub enum RuntimeAnnotationValue {
    /// A constant: its tag (one of `B C D F I J S Z s`) and pool index.
    ConstValueIndex { tag: u8, const_value_index: u16 },
    EnumConstValue { type_name_index: u16, const_name_index: u16 },
    ClassInfoIndex(u16),
    Annotation(Box<RuntimeAnnotation>),
    ArrayValue { values: Vec<RuntimeAnnotationValue> },
}

/// One element of an annotation: its name and value.
#[derive(Debug)]
pub struct RuntimeAnnotationEVPair {
    pub name: CPUtf8Ref,
    pub value: RuntimeAnnotationValue,
}

/// An annotation: its type and its elements.
#[derive(Debug)]
pub struct RuntimeAnnotation {
    pub ty: CPUtf8Ref,
    pub pairs: Vec<RuntimeAnnotationEVPair>,
}

/// The bytes of an element value: its tag, then what the tag selects.
pub open spec fn value_bytes(v: RuntimeAnnotationValue) -> Seq<u8>
    decreases v,
{
    match v {
        RuntimeAnnotationValue::ConstValueIndex { tag, const_value_index } => seq![tag]
            + u16_bytes(const_value_index),
        RuntimeAnnotationValue::EnumConstValue { type_name_index, const_name_index } => seq![
            0x65u8,
        ] + u16_bytes(type_name_index) + u16_bytes(const_name_index),
        RuntimeAnnotationValue::ClassInfoIndex(i) => seq![0x63u8] + u16_bytes(i),
        RuntimeAnnotationValue::Annotation(a) => seq![0x40u8] + annotation_bytes(*a),
        RuntimeAnnotationValue::ArrayValue { values } => seq![0x5Bu8] + u16_bytes(
            values@.len() as u16,
        ) + values_bytes(values@),
    }
}

/// The bytes of a sequence of element values, one after the other.
pub open spec fn values_bytes(s: Seq<RuntimeAnnotationValue>) -> Seq<u8>
    decreases s,
{
    if s.len() == 0 {
        seq![]
    } else {
        values_bytes(s.drop_last()) + value_bytes(s.last())
    }
}

/// The bytes of an annotation: type index, element count, elements.
pub open spec fn annotation_bytes(a: RuntimeAnnotation) -> Seq<u8>
    decreases a,
{
    u16_bytes(a.ty.index) + u16_bytes(a.pairs@.len() as u16) + pairs_bytes(a.pairs@)
}

/// The bytes of a sequence of elements: each name index, then its value.
pub open spec fn pairs_bytes(s: Seq<RuntimeAnnotationEVPair>) -> Seq<u8>
    decreases s,
{
    if s.len() == 0 {
        seq![]
    } else {
        pairs_bytes(s.drop_last()) + u16_bytes(s.last().name.index) + value_bytes(s.last().value)
    }
}

/// Every name and type reference inside the value is resolved against the
/// typed pool.
pub open spec fn value_refs_in(cp: Seq<IRCpTag>, v: RuntimeAnnotationValue) -> bool
    decreases v,
{
    match v {
        RuntimeAnnotationValue::Annotation(a) => annotation_refs_in(cp, *a),
        RuntimeAnnotationValue::ArrayValue { values } => values_refs_in(cp, values@),
        _ => true,
    }
}

/// Every value of the sequence has its references resolved.
pub open spec fn values_refs_in(cp: Seq<IRCpTag>, s: Seq<RuntimeAnnotationValue>) -> bool
    decreases s,
{
    s.len() > 0 ==> values_refs_in(cp, s.drop_last()) && value_refs_in(cp, s.last())
}

/// The annotation's type and element names are resolved `Utf8` references,
/// and so are those of its values.
pub open spec fn annotation_refs_in(cp: Seq<IRCpTag>, a: RuntimeAnnotation) -> bool
    decreases a,
{
    utf8_ref_in(cp, a.ty.index, a.ty) && pairs_refs_in(cp, a.pairs@)
}

/// Every element of the sequence has its references resolved.
pub open spec fn pairs_refs_in(cp: Seq<IRCpTag>, s: Seq<RuntimeAnnotationEVPair>) -> bool
    decreases s,
{
    s.len() > 0 ==> pairs_refs_in(cp, s.drop_last()) && utf8_ref_in(
        cp,
        s.last().name.index,
        s.last().name,
    ) && value_refs_in(cp, s.last().value)
}


/// The tags that start an element value: the constant tags, `e`, `c`, `@`
/// and `[`.
pub open spec fn value_tag(t: u8) -> bool {
    const_value_tag(t) || t == 0x65 || t == 0x63 || t == 0x40 || t == 0x5B
}

/// Every constant tag is one of `B C D F I J S Z s` and every count fits.
pub open spec fn value_wf(v: RuntimeAnnotationValue) -> bool
    decreases v,
{
    match v {
        RuntimeAnnotationValue::ConstValueIndex { tag, .. } => const_value_tag(tag),
        RuntimeAnnotationValue::Annotation(a) => annotation_wf(*a),
        RuntimeAnnotationValue::ArrayValue { values } => values@.len() <= u16::MAX && values_wf(
            values@,
        ),
        _ => true,
    }
}

/// Every value of the sequence is well formed.
pub open spec fn values_wf(s: Seq<RuntimeAnnotationValue>) -> bool
    decreases s,
{
    s.len() > 0 ==> values_wf(s.drop_last()) && value_wf(s.last())
}

/// The element count fits and every element value is well formed.
pub open spec fn annotation_wf(a: RuntimeAnnotation) -> bool
    decreases a,
{
    a.pairs@.len() <= u16::MAX && pairs_wf(a.pairs@)
}

/// Every element value of the sequence is well formed.
pub open spec fn pairs_wf(s: Seq<RuntimeAnnotationEVPair>) -> bool
    decreases s,
{
    s.len() > 0 ==> pairs_wf(s.drop_last()) && value_wf(s.last().value)
}

/// `v` is well formed, its references resolve against `cp`, and its bytes
/// stand in `s` at `p`.
pub open spec fn value_at(cp: Seq<IRCpTag>, s: Seq<u8>, p: int, v: RuntimeAnnotationValue) -> bool {
    value_wf(v) && value_refs_in(cp, v) && bytes_at(s, p, value_bytes(v))
}

/// `a` is well formed, its references resolve against `cp`, and its bytes
/// stand in `s` at `p`.
pub open spec fn annotation_at(cp: Seq<IRCpTag>, s: Seq<u8>, p: int, a: RuntimeAnnotation) -> bool {
    annotation_wf(a) && annotation_refs_in(cp, a) && bytes_at(s, p, annotation_bytes(a))
}

proof fn lemma_values_item(cp: Seq<IRCpTag>, s: Seq<RuntimeAnnotationValue>, i: int)
    requires
        values_wf(s),
        values_refs_in(cp, s),
        0 <= i < s.len(),
    ensures
        value_wf(s[i]),
        value_refs_in(cp, s[i]),
    decreases s.len(),
{
    if i < s.len() - 1 {
        assert(s.drop_last()[i] == s[i]);
        lemma_values_item(cp, s.drop_last(), i);
    }
}

proof fn lemma_pairs_item(cp: Seq<IRCpTag>, s: Seq<RuntimeAnnotationEVPair>, i: int)
    requires
        pairs_wf(s),
        pairs_refs_in(cp, s),
        0 <= i < s.len(),
    ensures
        value_wf(s[i].value),
        value_refs_in(cp, s[i].value),
        utf8_ref_in(cp, s[i].name.index, s[i].name),
    decreases s.len(),
{
    if i < s.len() - 1 {
        assert(s.drop_last()[i] == s[i]);
        lemma_pairs_item(cp, s.drop_last(), i);
    }
}

proof fn lemma_values_append(a: Seq<RuntimeAnnotationValue>, b: Seq<RuntimeAnnotationValue>)
    ensures
        values_bytes(a + b) == values_bytes(a) + values_bytes(b),
    decreases b.len(),
{
    if b.len() == 0 {
        assert(a + b =~= a);
        assert(values_bytes(a) + seq![] =~= values_bytes(a));
    } else {
        assert((a + b).drop_last() =~= a + b.drop_last());
        assert((a + b).last() == b.last());
        lemma_values_append(a, b.drop_last());
        assert(values_bytes(a + b) =~= values_bytes(a) + values_bytes(b));
    }
}

proof fn lemma_values_step(data: Seq<u8>, p: int, w: Seq<RuntimeAnnotationValue>, i: int)
    requires
        bytes_at(data, p, values_bytes(w)),
        0 <= i < w.len(),
    ensures
        bytes_at(data, p + values_bytes(w.take(i)).len(), value_bytes(w[i])),
        values_bytes(w.take(i + 1)) == values_bytes(w.take(i)) + value_bytes(w[i]),
{
    assert(w =~= w.take(i + 1) + w.skip(i + 1));
    lemma_values_append(w.take(i + 1), w.skip(i + 1));
    assert(w.take(i + 1).drop_last() =~= w.take(i));
    lemma_bytes_at_split(data, p, values_bytes(w.take(i + 1)), values_bytes(w.skip(i + 1)));
    lemma_bytes_at_split(data, p, values_bytes(w.take(i)), value_bytes(w[i]));
}

/// The bytes of one element: name index, then value.
pub open spec fn pair_bytes(e: RuntimeAnnotationEVPair) -> Seq<u8> {
    u16_bytes(e.name.index) + value_bytes(e.value)
}

proof fn lemma_pairs_append(a: Seq<RuntimeAnnotationEVPair>, b: Seq<RuntimeAnnotationEVPair>)
    ensures
        pairs_bytes(a + b) == pairs_bytes(a) + pairs_bytes(b),
    decreases b.len(),
{
    if b.len() == 0 {
        assert(a + b =~= a);
        assert(pairs_bytes(a) + seq![] =~= pairs_bytes(a));
    } else {
        assert((a + b).drop_last() =~= a + b.drop_last());
        assert((a + b).last() == b.last());
        lemma_pairs_append(a, b.drop_last());
        assert(pairs_bytes(a + b) =~= pairs_bytes(a) + pairs_bytes(b));
    }
}

proof fn lemma_pairs_step(data: Seq<u8>, p: int, w: Seq<RuntimeAnnotationEVPair>, i: int)
    requires
        bytes_at(data, p, pairs_bytes(w)),
        0 <= i < w.len(),
    ensures
        bytes_at(data, p + pairs_bytes(w.take(i)).len(), pair_bytes(w[i])),
        pairs_bytes(w.take(i + 1)) == pairs_bytes(w.take(i)) + pair_bytes(w[i]),
{
    assert(w =~= w.take(i + 1) + w.skip(i + 1));
    lemma_pairs_append(w.take(i + 1), w.skip(i + 1));
    assert(w.take(i + 1).drop_last() =~= w.take(i));
    assert(pairs_bytes(w.take(i + 1)) =~= pairs_bytes(w.take(i)) + pair_bytes(w[i]));
    lemma_bytes_at_split(data, p, pairs_bytes(w.take(i + 1)), pairs_bytes(w.skip(i + 1)));
    lemma_bytes_at_split(data, p, pairs_bytes(w.take(i)), pair_bytes(w[i]));
}

impl RuntimeAnnotationValue {
    /// Reads one element value; nested annotations and arrays are read in
    /// turn. Where the input holds a well-formed value whose references
    /// resolve, reading succeeds.
    pub fn new(cp: &[IRCpTag], buffer: &mut ByteReader) -> (r: Result<
        RuntimeAnnotationValue,
        IRClassfileError,
    >)
        requires
            old(buffer).wf(),
        ensures
            final(buffer).data@ == old(buffer).data@,
            r matches Ok(v) ==> value_refs_in(cp@, v) && advanced(
                *old(buffer),
                *final(buffer),
                value_bytes(v),
            ),
            old(buffer).pos < old(buffer).data@.len() && !value_tag(
                old(buffer).data@[old(buffer).pos as int],
            ) ==> r == Err::<RuntimeAnnotationValue, IRClassfileError>(
                IRClassfileError::UnknownAnnotationTag(old(buffer).data@[old(buffer).pos as int]),
            ),
            (exists|v: RuntimeAnnotationValue|
                #[trigger] value_at(cp@, old(buffer).data@, old(buffer).pos as int, v)) ==> r is Ok,
    {
        let ghost d = buffer.data@;
        let ghost p = buffer.pos as int;
        let ghost has = exists|v: RuntimeAnnotationValue| #[trigger] value_at(cp@, d, p, v);
        let ghost w = choose|v: RuntimeAnnotationValue| #[trigger] value_at(cp@, d, p, v);
        read_value(
            cp,
            buffer,
            Ghost(
                if has {
                    Some(w)
                } else {
                    None
                },
            ),
        )
    }
}

/// Reads one element value; where the input holds the value `wopt`, it
/// reads one with the same bytes.
#[verifier::rlimit(100)]
#[verifier::spinoff_prover]
fn read_value(
    cp: &[IRCpTag],
    buffer: &mut ByteReader,
    Ghost(wopt): Ghost<Option<RuntimeAnnotationValue>>,
) -> (r: Result<RuntimeAnnotationValue, IRClassfileError>)
    requires
        old(buffer).wf(),
    ensures
        final(buffer).data@ == old(buffer).data@,
        r matches Ok(v) ==> value_refs_in(cp@, v) && advanced(
            *old(buffer),
            *final(buffer),
            value_bytes(v),
        ),
        old(buffer).pos < old(buffer).data@.len() && !value_tag(
            old(buffer).data@[old(buffer).pos as int],
        ) ==> r == Err::<RuntimeAnnotationValue, IRClassfileError>(
            IRClassfileError::UnknownAnnotationTag(old(buffer).data@[old(buffer).pos as int]),
        ),
        wopt is Some && value_at(cp@, old(buffer).data@, old(buffer).pos as int, wopt->0) ==> (
        r matches Ok(v) && value_bytes(v) == value_bytes(wopt->0)),
    decreases old(buffer).data@.len() - old(buffer).pos,
{
    let ghost r0 = *buffer;
    let ghost d = r0.data@;
    let ghost p = r0.pos as int;
    let ghost aligned = wopt is Some && value_at(cp@, d, p, wopt->0);
    let ghost w = wopt->0;
    proof {
        if aligned {
            assert(d[p] == d.subrange(p, p + value_bytes(w).len())[0]);
        }
    }
    let tag = read_u8_ir(buffer)?;
    let ghost r1 = *buffer;
    let ghost head = seq![tag];
    if tag == 0x42 || tag == 0x43 || tag == 0x44 || tag == 0x46 || tag == 0x49 || tag == 0x4A
        || tag == 0x53 || tag == 0x5A || tag == 0x73 {
        proof {
            if aligned {
                assert(w is ConstValueIndex);
                let i = w->ConstValueIndex_const_value_index;
                lemma_bytes_at_split(d, p, seq![tag], u16_bytes(i));
                lemma_u16_at_bytes(d, p + 1, i);
            }
        }
        let const_value_index = read_u16_ir(buffer)?;
        proof {
            lemma_advanced_chain(r0, r1, *buffer, head, u16_bytes(const_value_index));
        }
        Ok(RuntimeAnnotationValue::ConstValueIndex { tag, const_value_index })
    } else if tag == 0x65 {
        proof {
            if aligned {
                assert(w is EnumConstValue);
                let t = w->EnumConstValue_type_name_index;
                let c = w->EnumConstValue_const_name_index;
                lemma_bytes_at_split(d, p, seq![tag] + u16_bytes(t), u16_bytes(c));
                lemma_bytes_at_split(d, p, seq![tag], u16_bytes(t));
                lemma_u16_at_bytes(d, p + 1, t);
                lemma_u16_at_bytes(d, p + 3, c);
            }
        }
        let type_name_index = read_u16_ir(buffer)?;
        let ghost r2 = *buffer;
        let const_name_index = read_u16_ir(buffer)?;
        proof {
            lemma_advanced_chain(r0, r1, r2, head, u16_bytes(type_name_index));
            lemma_advanced_chain(
                r0,
                r2,
                *buffer,
                head + u16_bytes(type_name_index),
                u16_bytes(const_name_index),
            );
        }
        Ok(RuntimeAnnotationValue::EnumConstValue { type_name_index, const_name_index })
    } else if tag == 0x63 {
        proof {
            if aligned {
                assert(w is ClassInfoIndex);
                lemma_bytes_at_split(d, p, seq![tag], u16_bytes(w->ClassInfoIndex_0));
                lemma_u16_at_bytes(d, p + 1, w->ClassInfoIndex_0);
            }
        }
        let i = read_u16_ir(buffer)?;
        proof {
            lemma_advanced_chain(r0, r1, *buffer, head, u16_bytes(i));
        }
        Ok(RuntimeAnnotationValue::ClassInfoIndex(i))
    } else if tag == 0x40 {
        let ghost inner = *w->Annotation_0;
        proof {
            if aligned {
                assert(w is Annotation);
                lemma_bytes_at_split(d, p, seq![tag], annotation_bytes(inner));
            }
        }
        let a = read_annotation(
            cp,
            buffer,
            Ghost(
                if aligned {
                    Some(inner)
                } else {
                    None
                },
            ),
        )?;
        proof {
            lemma_advanced_chain(r0, r1, *buffer, head, annotation_bytes(a));
        }
        Ok(RuntimeAnnotationValue::Annotation(Box::new(a)))
    } else if tag == 0x5B {
        let ghost ws = w->ArrayValue_values@;
        proof {
            if aligned {
                assert(w is ArrayValue);
                lemma_bytes_at_split(
                    d,
                    p,
                    seq![tag] + u16_bytes(ws.len() as u16),
                    values_bytes(ws),
                );
                lemma_bytes_at_split(d, p, seq![tag], u16_bytes(ws.len() as u16));
                lemma_u16_at_bytes(d, p + 1, ws.len() as u16);
                assert(ws.take(0) =~= seq![]);
            }
        }
        let n_values = read_u16_ir(buffer)?;
        let ghost r2 = *buffer;
        proof {
            lemma_advanced_chain(r0, r1, r2, head, u16_bytes(n_values));
            assert(r2.data@.subrange(r2.pos as int, r2.pos as int) =~= seq![]);
        }
        let mut values: Vec<RuntimeAnnotationValue> = Vec::new();
        let mut i: u16 = 0;
        while i < n_values
            invariant
                r0 == *old(buffer),
                d == r0.data@,
                p == r0.pos,
                aligned == (wopt is Some && value_at(cp@, d, p, wopt->0)),
                w == wopt->0,
                r0.pos < r0.data@.len() && r0.data@[r0.pos as int] == 0x5B,
                r2.pos > r0.pos,
                r2.data@ == r0.data@,
                buffer.data@ == r0.data@,
                i <= n_values,
                values@.len() == i,
                values_refs_in(cp@, values@),
                advanced(r2, *buffer, values_bytes(values@)),
                aligned ==> w is ArrayValue && ws == w->ArrayValue_values@ && n_values == ws.len()
                    && values_wf(ws) && values_refs_in(cp@, ws) && bytes_at(
                    d,
                    r2.pos as int,
                    values_bytes(ws),
                ) && values_bytes(values@) == values_bytes(ws.take(i as int)),
            decreases n_values - i,
        {
            let ghost r3 = *buffer;
            let ghost before = values@;
            proof {
                if aligned {
                    lemma_values_step(d, r2.pos as int, ws, i as int);
                    lemma_values_item(cp@, ws, i as int);
                }
            }
            let v = read_value(
                cp,
                buffer,
                Ghost(
                    if aligned {
                        Some(ws[i as int])
                    } else {
                        None
                    },
                ),
            )?;
            proof {
                lemma_advanced_chain(r2, r3, *buffer, values_bytes(before), value_bytes(v));
            }
            values.push(v);
            proof {
                assert(values@.drop_last() =~= before);
            }
            i = i + 1;
        }
        proof {
            lemma_advanced_chain(
                r0,
                r2,
                *buffer,
                head + u16_bytes(n_values),
                values_bytes(values@),
            );
            if aligned {
                assert(ws.take(i as int) =~= ws);
            }
        }
        Ok(RuntimeAnnotationValue::ArrayValue { values })
    } else {
        Err(IRClassfileError::UnknownAnnotationTag(tag))
    }
}

impl RuntimeAnnotation {
    /// Reads one annotation: its type, then its elements, each a name and a
    /// value. Where the input holds a well-formed annotation whose
    /// references resolve, reading succeeds.
    pub fn new(cp: &[IRCpTag], buffer: &mut ByteReader) -> (r: Result<
        RuntimeAnnotation,
        IRClassfileError,
    >)
        requires
            old(buffer).wf(),
        ensures
            final(buffer).data@ == old(buffer).data@,
            r matches Ok(a) ==> annotation_refs_in(cp@, a) && advanced(
                *old(buffer),
                *final(buffer),
                annotation_bytes(a),
            ),
            (exists|a: RuntimeAnnotation|
                #[trigger] annotation_at(cp@, old(buffer).data@, old(buffer).pos as int, a))
                ==> r is Ok,
    {
        let ghost d = buffer.data@;
        let ghost p = buffer.pos as int;
        let ghost has = exists|a: RuntimeAnnotation| #[trigger] annotation_at(cp@, d, p, a);
        let ghost w = choose|a: RuntimeAnnotation| #[trigger] annotation_at(cp@, d, p, a);
        read_annotation(
            cp,
            buffer,
            Ghost(
                if has {
                    Some(w)
                } else {
                    None
                },
            ),
        )
    }
}

/// Reads one annotation; where the input holds the annotation `wopt`, it
/// reads one with the same bytes.
#[verifier::rlimit(100)]
#[verifier::spinoff_prover]
fn read_annotation(
    cp: &[IRCpTag],
    buffer: &mut ByteReader,
    Ghost(wopt): Ghost<Option<RuntimeAnnotation>>,
) -> (r: Result<RuntimeAnnotation, IRClassfileError>)
    requires
        old(buffer).wf(),
    ensures
        final(buffer).data@ == old(buffer).data@,
        r matches Ok(a) ==> annotation_refs_in(cp@, a) && advanced(
            *old(buffer),
            *final(buffer),
            annotation_bytes(a),
        ),
        wopt is Some && annotation_at(cp@, old(buffer).data@, old(buffer).pos as int, wopt->0) ==> (
        r matches Ok(a) && annotation_bytes(a) == annotation_bytes(wopt->0)),
    decreases old(buffer).data@.len() - old(buffer).pos,
{
    let ghost r0 = *buffer;
    let ghost d = r0.data@;
    let ghost p = r0.pos as int;
    let ghost aligned = wopt is Some && annotation_at(cp@, d, p, wopt->0);
    let ghost w = wopt->0;
    let ghost ps = w.pairs@;
    proof {
        if aligned {
            lemma_bytes_at_split(
                d,
                p,
                u16_bytes(w.ty.index) + u16_bytes(ps.len() as u16),
                pairs_bytes(ps),
            );
            lemma_bytes_at_split(d, p, u16_bytes(w.ty.index), u16_bytes(ps.len() as u16));
            lemma_u16_at_bytes(d, p, w.ty.index);
            lemma_u16_at_bytes(d, p + 2, ps.len() as u16);
            assert(ps.take(0) =~= seq![]);
        }
    }
    let ty_idx = read_u16_ir(buffer)?;
    let ty = CPUtf8Ref::from_cp(cp, ty_idx)?;
    let ghost r1 = *buffer;
    let n_pairs = read_u16_ir(buffer)?;
    let ghost r2 = *buffer;
    proof {
        lemma_advanced_chain(r0, r1, r2, u16_bytes(ty_idx), u16_bytes(n_pairs));
        assert(r2.data@.subrange(r2.pos as int, r2.pos as int) =~= seq![]);
    }
    let mut pairs: Vec<RuntimeAnnotationEVPair> = Vec::new();
    let mut i: u16 = 0;
    while i < n_pairs
        invariant
            r0 == *old(buffer),
            d == r0.data@,
            p == r0.pos,
            aligned == (wopt is Some && annotation_at(cp@, d, p, wopt->0)),
            w == wopt->0,
            ps == w.pairs@,
            r2.pos > r0.pos,
            r2.data@ == r0.data@,
            buffer.data@ == r0.data@,
            i <= n_pairs,
            pairs@.len() == i,
            pairs_refs_in(cp@, pairs@),
            advanced(r2, *buffer, pairs_bytes(pairs@)),
            aligned ==> n_pairs == ps.len() && pairs_wf(ps) && pairs_refs_in(cp@, ps) && bytes_at(
                d,
                r2.pos as int,
                pairs_bytes(ps),
            ) && pairs_bytes(pairs@) == pairs_bytes(ps.take(i as int)),
        decreases n_pairs - i,
    {
        let ghost r3 = *buffer;
        let ghost before = pairs@;
        let ghost e = ps[i as int];
        proof {
            if aligned {
                lemma_pairs_step(d, r2.pos as int, ps, i as int);
                lemma_pairs_item(cp@, ps, i as int);
                lemma_bytes_at_split(
                    d,
                    r3.pos as int,
                    u16_bytes(e.name.index),
                    value_bytes(e.value),
                );
                lemma_u16_at_bytes(d, r3.pos as int, e.name.index);
            }
        }
        let name_idx = read_u16_ir(buffer)?;
        let name = CPUtf8Ref::from_cp(cp, name_idx)?;
        let ghost r4 = *buffer;
        let value = read_value(
            cp,
            buffer,
            Ghost(
                if aligned {
                    Some(e.value)
                } else {
                    None
                },
            ),
        )?;
        proof {
            lemma_advanced_chain(r2, r3, r4, pairs_bytes(before), u16_bytes(name_idx));
            lemma_advanced_chain(
                r2,
                r4,
                *buffer,
                pairs_bytes(before) + u16_bytes(name_idx),
                value_bytes(value),
            );
        }
        pairs.push(RuntimeAnnotationEVPair { name, value });
        proof {
            assert(pairs@.drop_last() =~= before);
            assert(pairs_bytes(pairs@) =~= pairs_bytes(before) + pair_bytes(pairs@.last()));
        }
        i = i + 1;
    }
    proof {
        lemma_advanced_chain(
            r0,
            r2,
            *buffer,
            u16_bytes(ty_idx) + u16_bytes(n_pairs),
            pairs_bytes(pairs@),
        );
        if aligned {
            assert(ps.take(i as int) =~= ps);
        }
    }
    Ok(RuntimeAnnotation { ty, pairs })
}

/// The name text of `name` is `lit`.
fn name_is(name: &CPUtf8Ref, lit: &str) -> (r: bool)
    ensures
        r == (name.data@ == lit@),
{
    let expected = String::from_str(lit);
    let text: &String = &name.data;
    *text == expected
}


/// The value that a `ConstantValue` attribute names.
#[derive(Debug)]
pub enum ConstantValueAttribute {
    Long { cp_idx: u16, value: i64 },
    /// The IEEE-754 bits of a `float`.
    Float { cp_idx: u16, bits: u32 },
    /// The IEEE-754 bits of a `double`.
    Double { cp_idx: u16, bits: u64 },
    Int { cp_idx: u16, value: i32 },
    String { cp_idx: u16, value: CPUtf8Ref },
}

impl ConstantValueAttribute {
    /// The pool index the attribute names.
    pub open spec fn spec_cp_idx(&self) -> u16 {
        match self {
            ConstantValueAttribute::Long { cp_idx, .. } => *cp_idx,
            ConstantValueAttribute::Float { cp_idx, .. } => *cp_idx,
            ConstantValueAttribute::Double { cp_idx, .. } => *cp_idx,
            ConstantValueAttribute::Int { cp_idx, .. } => *cp_idx,
            ConstantValueAttribute::String { cp_idx, .. } => *cp_idx,
        }
    }

    /// The value is the one the named slot of the typed pool holds.
    pub open spec fn refs_in(&self, cp: Seq<IRCpTag>) -> bool {
        let n = self.spec_cp_idx();
        &&& 1 <= n <= cp.len()
        &&& match (*self, cp[n - 1]) {
            (ConstantValueAttribute::Long { value, .. }, IRCpTag::Long(v)) => value == v,
            (ConstantValueAttribute::Float { bits, .. }, IRCpTag::Float(v)) => bits == v,
            (ConstantValueAttribute::Double { bits, .. }, IRCpTag::Double(v)) => bits == v,
            (ConstantValueAttribute::Int { value, .. }, IRCpTag::Integer(v)) => value == v,
            (ConstantValueAttribute::String { value, .. }, IRCpTag::String(u)) => same_utf8(
                value,
                u,
            ),
            _ => false,
        }
    }
}

/// The frames of a `StackMapTable` attribute.
#[derive(Debug)]
pub struct StackMapTableAttribute {
    pub entries: Vec<StackMapFrame>,
}

/// One entry of a `Code` attribute's exception table.
#[derive(Debug, Clone, Copy)]
pub struct CodeAttributeException {
    pub start_pc: u16,
    pub end_pc: u16,
    pub handler_pc: u16,
    pub catch_type: u16,
}

/// A method's bytecode, exception table and nested attributes.
#[derive(Debug)]
pub struct CodeAttribute {
    pub max_stack: u16,
    pub max_locals: u16,
    pub code: Vec<u8>,
    pub exception_table: Vec<CodeAttributeException>,
    pub attributes: Vec<Box<IRAttributeInfo>>,
}

/// One entry of a `LineNumberTable` attribute.
#[derive(Debug, Clone, Copy)]
pub struct LineNumberTableAttributeEntry {
    pub start_pc: u16,
    pub line_number: u16,
}

/// The entries of a `LineNumberTable` attribute.
#[derive(Debug)]
pub struct LineNumberTableAttribute {
    pub line_number_table: Vec<LineNumberTableAttributeEntry>,
}

/// One entry of an `InnerClasses` attribute; a zero index stands for an
/// absent outer class or name.
#[derive(Debug)]
pub struct InnerClassesAttributeClass {
    pub inner_class_info: CPClassRef,
    pub outer_class_info: Option<CPClassRef>,
    pub inner_name: Option<CPUtf8Ref>,
    pub inner_class_access_flags: u16,
}

/// The entries of an `InnerClasses` attribute.
#[derive(Debug)]
pub struct InnerClassesAttribute {
    pub classes: Vec<InnerClassesAttributeClass>,
}

/// One parameter of a `MethodParameters` attribute; a zero name index
/// stands for no name.
#[derive(Debug)]
pub struct MethodParametersParam {
    pub name: Option<CPUtf8Ref>,
    pub access_flags: u16,
}

/// A decoded attribute: its name, its stored length and its payload.
#[derive(Debug)]
pub struct IRAttributeInfo {
    pub name: CPUtf8Ref,
    pub length: u32,
    pub attr: IRAttribute,
}

/// The payload of an attribute, by the attribute's name. `AnnotationDefault`
/// and `BootstrapMethods` keep their payload as bytes.
#[derive(Debug)]
pub enum IRAttribute {
    ConstantValue(ConstantValueAttribute),
    Code(CodeAttribute),
    StackMapTable(StackMapTableAttribute),
    Exceptions { exception_index_table: Vec<CPClassRef> },
    InnerClasses(InnerClassesAttribute),
    EnclosingMethod { class: CPClassRef, method: Option<CPNameAndTypeRef> },
    Synthetic,
    Signature(CPUtf8Ref),
    SourceFile(CPUtf8Ref),
    LineNumberTable(LineNumberTableAttribute),
    Deprecated,
    RuntimeVisibleAnnotations { annotations: Vec<RuntimeAnnotation> },
    RuntimeInvisibleAnnotations { annotations: Vec<RuntimeAnnotation> },
    RuntimeVisibleParameterAnnotations { params: Vec<Vec<RuntimeAnnotation>> },
    RuntimeInvisibleParameterAnnotations { params: Vec<Vec<RuntimeAnnotation>> },
    AnnotationDefault(Vec<u8>),
    BootstrapMethods(Vec<u8>),
    NestMembers { classes: Vec<CPClassRef> },
    NestHost(CPClassRef),
    MethodParameters { parameters: Vec<MethodParametersParam> },
}

/// The attribute names that have a decoder.
pub open spec fn known_attribute(n: Seq<char>) -> bool {
    n == "ConstantValue"@ || n == "Code"@ || n == "StackMapTable"@ || n == "Exceptions"@ || n
        == "InnerClasses"@ || n == "EnclosingMethod"@ || n == "Synthetic"@ || n == "Signature"@
        || n == "SourceFile"@ || n == "LineNumberTable"@ || n == "Deprecated"@ || n
        == "RuntimeVisibleAnnotations"@ || n == "RuntimeInvisibleAnnotations"@ || n
        == "RuntimeVisibleParameterAnnotations"@ || n == "RuntimeInvisibleParameterAnnotations"@
        || n == "AnnotationDefault"@ || n == "BootstrapMethods"@ || n == "NestMembers"@ || n
        == "NestHost"@ || n == "MethodParameters"@
}

/// The bytes of a sequence of frames, one after the other.
pub open spec fn frames_bytes(s: Seq<StackMapFrame>) -> Seq<u8> {
    concat_bytes(s, |f: StackMapFrame| f.spec_bytes())
}

proof fn lemma_frames_step(data: Seq<u8>, p: int, w: Seq<StackMapFrame>, i: int)
    requires
        bytes_at(data, p, frames_bytes(w)),
        0 <= i < w.len(),
    ensures
        bytes_at(data, p + frames_bytes(w.take(i)).len(), w[i].spec_bytes()),
        frames_bytes(w.take(i + 1)) == frames_bytes(w.take(i)) + w[i].spec_bytes(),
{
    let f = |f: StackMapFrame| f.spec_bytes();
    assert(frames_bytes(w) == concat_bytes(w, f));
    lemma_concat_item_at(data, p, w, f, i);
    assert(frames_bytes(w.take(i)) == concat_bytes(w.take(i), f));
    assert(frames_bytes(w.take(i + 1)) == concat_bytes(w.take(i + 1), f));
}

/// The index bytes of a sequence of class references.
pub open spec fn classes_bytes(s: Seq<CPClassRef>) -> Seq<u8> {
    concat_bytes(s, |c: CPClassRef| u16_bytes(c.index))
}

/// The bytes of an exception table.
pub open spec fn exception_bytes(e: CodeAttributeException) -> Seq<u8> {
    u16_bytes(e.start_pc) + u16_bytes(e.end_pc) + u16_bytes(e.handler_pc) + u16_bytes(e.catch_type)
}

/// The bytes of an exception table.
pub open spec fn exceptions_bytes(s: Seq<CodeAttributeException>) -> Seq<u8> {
    concat_bytes(s, |e: CodeAttributeException| exception_bytes(e))
}

proof fn lemma_exceptions_step(data: Seq<u8>, p: int, w: Seq<CodeAttributeException>, i: int)
    requires
        bytes_at(data, p, exceptions_bytes(w)),
        0 <= i < w.len(),
    ensures
        bytes_at(data, p + exceptions_bytes(w.take(i)).len(), exception_bytes(w[i])),
        exceptions_bytes(w.take(i + 1)) == exceptions_bytes(w.take(i)) + exception_bytes(w[i]),
{
    let f = |e: CodeAttributeException| exception_bytes(e);
    assert(exceptions_bytes(w) == concat_bytes(w, f));
    lemma_concat_item_at(data, p, w, f, i);
    assert(exceptions_bytes(w.take(i)) == concat_bytes(w.take(i), f));
    assert(exceptions_bytes(w.take(i + 1)) == concat_bytes(w.take(i + 1), f));
}

/// The bytes of one nested attribute: name index, stored length, payload.
pub open spec fn nested_item_bytes(n: IRAttributeInfo) -> Seq<u8> {
    u16_bytes(n.name.index) + u32_bytes(n.length) + attribute_bytes(n.attr)
}

proof fn lemma_nested_append(a: Seq<Box<IRAttributeInfo>>, b: Seq<Box<IRAttributeInfo>>)
    ensures
        nested_bytes(a + b) == nested_bytes(a) + nested_bytes(b),
    decreases b.len(),
{
    if b.len() == 0 {
        assert(a + b =~= a);
        assert(nested_bytes(a) + seq![] =~= nested_bytes(a));
    } else {
        assert((a + b).drop_last() =~= a + b.drop_last());
        assert((a + b).last() == b.last());
        lemma_nested_append(a, b.drop_last());
        assert(nested_bytes(a + b) =~= nested_bytes(a) + nested_bytes(b));
    }
}

proof fn lemma_nested_step(data: Seq<u8>, p: int, w: Seq<Box<IRAttributeInfo>>, i: int)
    requires
        bytes_at(data, p, nested_bytes(w)),
        0 <= i < w.len(),
    ensures
        bytes_at(data, p + nested_bytes(w.take(i)).len(), nested_item_bytes(*w[i])),
        nested_bytes(w.take(i + 1)) == nested_bytes(w.take(i)) + nested_item_bytes(*w[i]),
{
    assert(w =~= w.take(i + 1) + w.skip(i + 1));
    lemma_nested_append(w.take(i + 1), w.skip(i + 1));
    assert(w.take(i + 1).drop_last() =~= w.take(i));
    assert(nested_bytes(w.take(i + 1)) =~= nested_bytes(w.take(i)) + nested_item_bytes(*w[i]));
    lemma_bytes_at_split(data, p, nested_bytes(w.take(i + 1)), nested_bytes(w.skip(i + 1)));
    lemma_bytes_at_split(data, p, nested_bytes(w.take(i)), nested_item_bytes(*w[i]));
}

/// A line-number table takes four bytes per entry.
proof fn lemma_line_numbers_len(s: Seq<LineNumberTableAttributeEntry>)
    ensures
        line_numbers_bytes(s).len() == 4 * s.len(),
    decreases s.len(),
{
    if s.len() > 0 {
        lemma_line_numbers_len(s.drop_last());
    }
}

/// The bytes of a line-number table.
pub open spec fn line_numbers_bytes(s: Seq<LineNumberTableAttributeEntry>) -> Seq<u8>
    decreases s.len(),
{
    if s.len() == 0 {
        seq![]
    } else {
        line_numbers_bytes(s.drop_last()) + u16_bytes(s.last().start_pc) + u16_bytes(
            s.last().line_number,
        )
    }
}

/// The index of an optional reference, 0 when absent.
pub open spec fn opt_class_index(c: Option<CPClassRef>) -> u16 {
    match c {
        Some(r) => r.index,
        None => 0,
    }
}

/// The index of an optional reference, 0 when absent.
pub open spec fn opt_utf8_index(c: Option<CPUtf8Ref>) -> u16 {
    match c {
        Some(r) => r.index,
        None => 0,
    }
}

/// The bytes of one entry of an `InnerClasses` attribute.
pub open spec fn inner_class_bytes(c: InnerClassesAttributeClass) -> Seq<u8> {
    u16_bytes(c.inner_class_info.index) + u16_bytes(opt_class_index(c.outer_class_info))
        + u16_bytes(opt_utf8_index(c.inner_name)) + u16_bytes(c.inner_class_access_flags)
}

/// The entry's inner class is resolved, and its outer class and name are
/// absent or resolved.
pub open spec fn inner_class_in(cp: Seq<IRCpTag>, c: InnerClassesAttributeClass) -> bool {
    &&& class_ref_in(cp, c.inner_class_info.index, c.inner_class_info)
    &&& opt_class_in(cp, c.outer_class_info)
    &&& opt_utf8_in(cp, c.inner_name)
}

/// The bytes of the entries of an `InnerClasses` attribute.
pub open spec fn inner_classes_bytes(s: Seq<InnerClassesAttributeClass>) -> Seq<u8> {
    concat_bytes(s, |c: InnerClassesAttributeClass| inner_class_bytes(c))
}

/// The bytes of one parameter: name index (0 for none) and flags.
pub open spec fn parameter_bytes(p: MethodParametersParam) -> Seq<u8> {
    u16_bytes(opt_utf8_index(p.name)) + u16_bytes(p.access_flags)
}

/// The bytes of the parameters of a `MethodParameters` attribute.
pub open spec fn parameters_bytes(s: Seq<MethodParametersParam>) -> Seq<u8> {
    concat_bytes(s, |p: MethodParametersParam| parameter_bytes(p))
}

/// The bytes of a sequence of annotations, one after the other.
pub open spec fn annotations_bytes(s: Seq<RuntimeAnnotation>) -> Seq<u8> {
    concat_bytes(s, |a: RuntimeAnnotation| annotation_bytes(a))
}

/// Every annotation of `s` is well formed.
pub open spec fn annotations_wf(s: Seq<RuntimeAnnotation>) -> bool {
    forall|i: int| 0 <= i < s.len() ==> #[trigger] annotation_wf(s[i])
}

/// The bytes of one parameter's annotations: their count, then each.
pub open spec fn param_list_bytes(v: Vec<RuntimeAnnotation>) -> Seq<u8> {
    u16_bytes(v@.len() as u16) + annotations_bytes(v@)
}

/// Each parameter's annotation list fits its count and is well formed.
pub open spec fn params_wf(s: Seq<Vec<RuntimeAnnotation>>) -> bool {
    forall|i: int|
        0 <= i < s.len() ==> (#[trigger] s[i])@.len() <= u16::MAX && annotations_wf(s[i]@)
}

proof fn lemma_annotations_step(data: Seq<u8>, p: int, w: Seq<RuntimeAnnotation>, i: int)
    requires
        bytes_at(data, p, annotations_bytes(w)),
        0 <= i < w.len(),
    ensures
        bytes_at(data, p + annotations_bytes(w.take(i)).len(), annotation_bytes(w[i])),
        annotations_bytes(w.take(i + 1)) == annotations_bytes(w.take(i)) + annotation_bytes(w[i]),
{
    let f = |a: RuntimeAnnotation| annotation_bytes(a);
    assert(annotations_bytes(w) == concat_bytes(w, f));
    lemma_concat_item_at(data, p, w, f, i);
    assert(annotations_bytes(w.take(i)) == concat_bytes(w.take(i), f));
    assert(annotations_bytes(w.take(i + 1)) == concat_bytes(w.take(i + 1), f));
}

proof fn lemma_params_step(data: Seq<u8>, p: int, w: Seq<Vec<RuntimeAnnotation>>, i: int)
    requires
        bytes_at(data, p, param_annotations_bytes(w)),
        0 <= i < w.len(),
    ensures
        bytes_at(data, p + param_annotations_bytes(w.take(i)).len(), param_list_bytes(w[i])),
        param_annotations_bytes(w.take(i + 1)) == param_annotations_bytes(w.take(i))
            + param_list_bytes(w[i]),
{
    let f = |v: Vec<RuntimeAnnotation>| param_list_bytes(v);
    assert(param_annotations_bytes(w) == concat_bytes(w, f));
    lemma_concat_item_at(data, p, w, f, i);
    assert(param_annotations_bytes(w.take(i)) == concat_bytes(w.take(i), f));
    assert(param_annotations_bytes(w.take(i + 1)) == concat_bytes(w.take(i + 1), f));
}

/// The bytes of per-parameter annotation lists, each with its `u16` count.
pub open spec fn param_annotations_bytes(s: Seq<Vec<RuntimeAnnotation>>) -> Seq<u8> {
    concat_bytes(s, |v: Vec<RuntimeAnnotation>| param_list_bytes(v))
}

/// Every class reference of `s` is resolved against the typed pool.
pub open spec fn classes_in(cp: Seq<IRCpTag>, s: Seq<CPClassRef>) -> bool {
    forall|i: int| 0 <= i < s.len() ==> #[trigger] class_ref_in(cp, s[i].index, s[i])
}

/// Every annotation of `s` has its references resolved.
pub open spec fn annotations_in(cp: Seq<IRCpTag>, s: Seq<RuntimeAnnotation>) -> bool {
    forall|i: int| 0 <= i < s.len() ==> #[trigger] annotation_refs_in(cp, s[i])
}

/// An optional class reference is absent or resolved.
pub open spec fn opt_class_in(cp: Seq<IRCpTag>, c: Option<CPClassRef>) -> bool {
    match c {
        Some(r) => r.index != 0 && class_ref_in(cp, r.index, r),
        None => true,
    }
}

/// An optional `Utf8` reference is absent or resolved.
pub open spec fn opt_utf8_in(cp: Seq<IRCpTag>, c: Option<CPUtf8Ref>) -> bool {
    match c {
        Some(r) => r.index != 0 && utf8_ref_in(cp, r.index, r),
        None => true,
    }
}

/// The bytes of the nested attributes of a `Code` attribute: each name
/// index, stored length and payload.
pub open spec fn nested_bytes(s: Seq<Box<IRAttributeInfo>>) -> Seq<u8>
    decreases s,
{
    if s.len() == 0 {
        seq![]
    } else {
        nested_bytes(s.drop_last()) + u16_bytes(s.last().name.index) + u32_bytes(s.last().length)
            + attribute_bytes(s.last().attr)
    }
}

/// Every nested attribute has a resolved name that names its kind, a stored
/// length equal to its payload's, and resolved references.
pub open spec fn nested_in(cp: Seq<IRCpTag>, s: Seq<Box<IRAttributeInfo>>) -> bool
    decreases s,
{
    s.len() > 0 ==> {
        &&& nested_in(cp, s.drop_last())
        &&& utf8_ref_in(cp, s.last().name.index, s.last().name)
        &&& s.last().attr.spec_name() == s.last().name.data@
        &&& attribute_bytes(s.last().attr).len() == s.last().length
        &&& attribute_refs_in(cp, s.last().attr)
    }
}

/// The payload bytes of an attribute, every count being the length of what
/// it counts.
pub open spec fn attribute_bytes(a: IRAttribute) -> Seq<u8>
    decreases a,
{
    match a {
        IRAttribute::ConstantValue(c) => u16_bytes(c.spec_cp_idx()),
        IRAttribute::Code(c) => u16_bytes(c.max_stack) + u16_bytes(c.max_locals) + u32_bytes(
            c.code@.len() as u32,
        ) + c.code@ + u16_bytes(c.exception_table@.len() as u16) + exceptions_bytes(
            c.exception_table@,
        ) + u16_bytes(c.attributes@.len() as u16) + nested_bytes(c.attributes@),
        IRAttribute::StackMapTable(t) => u16_bytes(t.entries@.len() as u16) + frames_bytes(
            t.entries@,
        ),
        IRAttribute::Exceptions { exception_index_table } => u16_bytes(
            exception_index_table@.len() as u16,
        ) + classes_bytes(exception_index_table@),
        IRAttribute::InnerClasses(t) => u16_bytes(t.classes@.len() as u16) + inner_classes_bytes(
            t.classes@,
        ),
        IRAttribute::EnclosingMethod { class, method } => u16_bytes(class.index) + u16_bytes(
            match method {
                Some(m) => m.index,
                None => 0,
            },
        ),
        IRAttribute::Synthetic => seq![],
        IRAttribute::Signature(r) => u16_bytes(r.index),
        IRAttribute::SourceFile(r) => u16_bytes(r.index),
        IRAttribute::LineNumberTable(t) => u16_bytes(t.line_number_table@.len() as u16)
            + line_numbers_bytes(t.line_number_table@),
        IRAttribute::Deprecated => seq![],
        IRAttribute::RuntimeVisibleAnnotations { annotations } => u16_bytes(
            annotations@.len() as u16,
        ) + annotations_bytes(annotations@),
        IRAttribute::RuntimeInvisibleAnnotations { annotations } => u16_bytes(
            annotations@.len() as u16,
        ) + annotations_bytes(annotations@),
        IRAttribute::RuntimeVisibleParameterAnnotations { params } => seq![params@.len() as u8]
            + param_annotations_bytes(params@),
        IRAttribute::RuntimeInvisibleParameterAnnotations { params } => seq![
            params@.len() as u8,
        ] + param_annotations_bytes(params@),
        IRAttribute::AnnotationDefault(b) => b@,
        IRAttribute::BootstrapMethods(b) => b@,
        IRAttribute::NestMembers { classes } => u16_bytes(classes@.len() as u16) + classes_bytes(
            classes@,
        ),
        IRAttribute::NestHost(c) => u16_bytes(c.index),
        IRAttribute::MethodParameters { parameters } => seq![parameters@.len() as u8]
            + parameters_bytes(parameters@),
    }
}

/// Every reference held by the attribute is resolved against the typed pool.
pub open spec fn attribute_refs_in(cp: Seq<IRCpTag>, a: IRAttribute) -> bool
    decreases a,
{
    match a {
        IRAttribute::ConstantValue(c) => c.refs_in(cp),
        IRAttribute::Code(c) => nested_in(cp, c.attributes@),
        IRAttribute::Exceptions { exception_index_table } => classes_in(
            cp,
            exception_index_table@,
        ),
        IRAttribute::InnerClasses(t) => forall|i: int|
            0 <= i < t.classes@.len() ==> #[trigger] inner_class_in(cp, t.classes@[i]),
        IRAttribute::EnclosingMethod { class, method } => class_ref_in(cp, class.index, class)
            && match method {
            Some(m) => m.index != 0 && name_and_type_ref_in(cp, m.index, m),
            None => true,
        },
        IRAttribute::Signature(r) => utf8_ref_in(cp, r.index, r),
        IRAttribute::SourceFile(r) => utf8_ref_in(cp, r.index, r),
        IRAttribute::RuntimeVisibleAnnotations { annotations } => annotations_in(
            cp,
            annotations@,
        ),
        IRAttribute::RuntimeInvisibleAnnotations { annotations } => annotations_in(
            cp,
            annotations@,
        ),
        IRAttribute::RuntimeVisibleParameterAnnotations { params } => forall|i: int|
            0 <= i < params@.len() ==> annotations_in(cp, #[trigger] params@[i]@),
        IRAttribute::RuntimeInvisibleParameterAnnotations { params } => forall|i: int|
            0 <= i < params@.len() ==> annotations_in(cp, #[trigger] params@[i]@),
        IRAttribute::NestMembers { classes } => classes_in(cp, classes@),
        IRAttribute::NestHost(c) => class_ref_in(cp, c.index, c),
        IRAttribute::MethodParameters { parameters } => forall|i: int|
            0 <= i < parameters@.len() ==> opt_utf8_in(cp, #[trigger] parameters@[i].name),
        _ => true,
    }
}

impl IRAttribute {
    /// The name of the attribute's kind.
    pub open spec fn spec_name(&self) -> Seq<char> {
        match self {
            IRAttribute::ConstantValue(..) => "ConstantValue"@,
            IRAttribute::Code(..) => "Code"@,
            IRAttribute::StackMapTable(..) => "StackMapTable"@,
            IRAttribute::Exceptions { .. } => "Exceptions"@,
            IRAttribute::InnerClasses(..) => "InnerClasses"@,
            IRAttribute::EnclosingMethod { .. } => "EnclosingMethod"@,
            IRAttribute::Synthetic => "Synthetic"@,
            IRAttribute::Signature(..) => "Signature"@,
            IRAttribute::SourceFile(..) => "SourceFile"@,
            IRAttribute::LineNumberTable(..) => "LineNumberTable"@,
            IRAttribute::Deprecated => "Deprecated"@,
            IRAttribute::RuntimeVisibleAnnotations { .. } => "RuntimeVisibleAnnotations"@,
            IRAttribute::RuntimeInvisibleAnnotations { .. } => "RuntimeInvisibleAnnotations"@,
            IRAttribute::RuntimeVisibleParameterAnnotations { .. } =>
                "RuntimeVisibleParameterAnnotations"@,
            IRAttribute::RuntimeInvisibleParameterAnnotations { .. } =>
                "RuntimeInvisibleParameterAnnotations"@,
            IRAttribute::AnnotationDefault(..) => "AnnotationDefault"@,
            IRAttribute::BootstrapMethods(..) => "BootstrapMethods"@,
            IRAttribute::NestMembers { .. } => "NestMembers"@,
            IRAttribute::NestHost(..) => "NestHost"@,
            IRAttribute::MethodParameters { .. } => "MethodParameters"@,
        }
    }

    /// The name of the attribute's kind.
    pub fn name(&self) -> (r: &'static str)
        ensures
            r@ == self.spec_name(),
    {
        match self {
            IRAttribute::ConstantValue(..) => "ConstantValue",
            IRAttribute::Code(..) => "Code",
            IRAttribute::StackMapTable(..) => "StackMapTable",
            IRAttribute::Exceptions { .. } => "Exceptions",
            IRAttribute::InnerClasses(..) => "InnerClasses",
            IRAttribute::EnclosingMethod { .. } => "EnclosingMethod",
            IRAttribute::Synthetic => "Synthetic",
            IRAttribute::Signature(..) => "Signature",
            IRAttribute::SourceFile(..) => "SourceFile",
            IRAttribute::LineNumberTable(..) => "LineNumberTable",
            IRAttribute::Deprecated => "Deprecated",
            IRAttribute::RuntimeVisibleAnnotations { .. } => "RuntimeVisibleAnnotations",
            IRAttribute::RuntimeInvisibleAnnotations { .. } => "RuntimeInvisibleAnnotations",
            IRAttribute::RuntimeVisibleParameterAnnotations { .. } =>
                "RuntimeVisibleParameterAnnotations",
            IRAttribute::RuntimeInvisibleParameterAnnotations { .. } =>
                "RuntimeInvisibleParameterAnnotations",
            IRAttribute::AnnotationDefault(..) => "AnnotationDefault",
            IRAttribute::BootstrapMethods(..) => "BootstrapMethods",
            IRAttribute::NestMembers { .. } => "NestMembers",
            IRAttribute::NestHost(..) => "NestHost",
            IRAttribute::MethodParameters { .. } => "MethodParameters",
        }
    }
}


/// Reads `count` stack-map frames one after another. Where the input holds
/// the well-formed frames `w`, it reads frames with their bytes.
fn read_frames(
    buffer: &mut ByteReader,
    count: u16,
    Ghost(w): Ghost<Option<Seq<StackMapFrame>>>,
) -> (r: Result<Vec<StackMapFrame>, IRClassfileError>)
    requires
        old(buffer).wf(),
    ensures
        final(buffer).data@ == old(buffer).data@,
        r matches Ok(v) ==> v@.len() == count && (forall|i: int|
            0 <= i < v@.len() ==> #[trigger] v@[i].wf()) && advanced(
            *old(buffer),
            *final(buffer),
            frames_bytes(v@),
        ),
        w is Some && w->0.len() == count && (forall|i: int|
            0 <= i < w->0.len() ==> #[trigger] w->0[i].wf()) && bytes_at(
            old(buffer).data@,
            old(buffer).pos as int,
            frames_bytes(w->0),
        ) ==> (r matches Ok(v) && frames_bytes(v@) == frames_bytes(w->0)),
{
    let ghost r0 = *buffer;
    let ghost d = r0.data@;
    let ghost aligned = w is Some && w->0.len() == count && (forall|i: int|
        0 <= i < w->0.len() ==> #[trigger] w->0[i].wf()) && bytes_at(
        d,
        r0.pos as int,
        frames_bytes(w->0),
    );
    let ghost wf = w->0;
    let mut v: Vec<StackMapFrame> = Vec::new();
    let mut i: u16 = 0;
    proof {
        assert(r0.data@.subrange(r0.pos as int, r0.pos as int) =~= seq![]);
    }
    proof {
        if aligned {
            assert(wf.take(0) =~= seq![]);
        }
    }
    while i < count
        invariant
            r0 == *old(buffer),
            d == r0.data@,
            aligned == (w is Some && w->0.len() == count && (forall|i: int|
                0 <= i < w->0.len() ==> #[trigger] w->0[i].wf()) && bytes_at(
                d,
                r0.pos as int,
                frames_bytes(w->0),
            )),
            wf == w->0,
            buffer.data@ == r0.data@,
            i <= count,
            v@.len() == i,
            forall|j: int| 0 <= j < v@.len() ==> #[trigger] v@[j].wf(),
            advanced(r0, *buffer, frames_bytes(v@)),
            aligned ==> frames_bytes(v@) == frames_bytes(wf.take(i as int)),
        decreases count - i,
    {
        let ghost r1 = *buffer;
        let ghost before = v@;
        proof {
            if aligned {
                lemma_frames_step(d, r0.pos as int, wf, i as int);
                assert(wf[i as int].wf());
            }
        }
        let f = read_frame(
            buffer,
            Ghost(
                if aligned {
                    Some(wf[i as int])
                } else {
                    None
                },
            ),
        )?;
        proof {
            lemma_advanced_chain(r0, r1, *buffer, frames_bytes(before), f.spec_bytes());
        }
        v.push(f);
        proof {
            assert(v@.drop_last() =~= before);
        }
        i = i + 1;
    }
    proof {
        if aligned {
            assert(wf.take(i as int) =~= wf);
        }
    }
    Ok(v)
}

proof fn lemma_classes_step(data: Seq<u8>, p: int, w: Seq<CPClassRef>, i: int)
    requires
        bytes_at(data, p, classes_bytes(w)),
        0 <= i < w.len(),
    ensures
        bytes_at(data, p + classes_bytes(w.take(i)).len(), u16_bytes(w[i].index)),
        classes_bytes(w.take(i + 1)) == classes_bytes(w.take(i)) + u16_bytes(w[i].index),
{
    let f = |c: CPClassRef| u16_bytes(c.index);
    assert(classes_bytes(w) == concat_bytes(w, f));
    lemma_concat_item_at(data, p, w, f, i);
    assert(classes_bytes(w.take(i)) == concat_bytes(w.take(i), f));
    assert(classes_bytes(w.take(i + 1)) == concat_bytes(w.take(i + 1), f));
}

/// Reads `count` class indices, each resolved to a `Class` slot. Where the
/// input holds the resolved references `w`, it reads them.
fn read_class_refs(
    cp: &[IRCpTag],
    buffer: &mut ByteReader,
    count: u16,
    Ghost(w): Ghost<Option<Seq<CPClassRef>>>,
) -> (r: Result<Vec<CPClassRef>, IRClassfileError>)
    requires
        old(buffer).wf(),
    ensures
        final(buffer).data@ == old(buffer).data@,
        r matches Ok(v) ==> v@.len() == count && classes_in(cp@, v@) && advanced(
            *old(buffer),
            *final(buffer),
            classes_bytes(v@),
        ),
        w is Some && w->0.len() == count && classes_in(cp@, w->0) && bytes_at(
            old(buffer).data@,
            old(buffer).pos as int,
            classes_bytes(w->0),
        ) ==> (r matches Ok(v) && classes_bytes(v@) == classes_bytes(w->0)),
{
    let ghost r0 = *buffer;
    let ghost d = r0.data@;
    let ghost aligned = w is Some && w->0.len() == count && classes_in(cp@, w->0) && bytes_at(
        d,
        r0.pos as int,
        classes_bytes(w->0),
    );
    let ghost wc = w->0;
    let mut v: Vec<CPClassRef> = Vec::new();
    let mut i: u16 = 0;
    proof {
        assert(d.subrange(r0.pos as int, r0.pos as int) =~= seq![]);
        if aligned {
            assert(wc.take(0) =~= seq![]);
        }
    }
    while i < count
        invariant
            r0 == *old(buffer),
            d == r0.data@,
            aligned == (w is Some && w->0.len() == count && classes_in(cp@, w->0) && bytes_at(
                d,
                r0.pos as int,
                classes_bytes(w->0),
            )),
            wc == w->0,
            buffer.data@ == d,
            i <= count,
            v@.len() == i,
            classes_in(cp@, v@),
            advanced(r0, *buffer, classes_bytes(v@)),
            aligned ==> classes_bytes(v@) == classes_bytes(wc.take(i as int)),
        decreases count - i,
    {
        let ghost r1 = *buffer;
        let ghost before = v@;
        proof {
            if aligned {
                lemma_classes_step(d, r0.pos as int, wc, i as int);
                lemma_u16_at_bytes(d, r1.pos as int, wc[i as int].index);
                assert(class_ref_in(cp@, wc[i as int].index, wc[i as int]));
            }
        }
        let idx = read_u16_ir(buffer)?;
        let c = CPClassRef::from_cp(cp, idx)?;
        proof {
            lemma_advanced_chain(r0, r1, *buffer, classes_bytes(before), u16_bytes(idx));
        }
        v.push(c);
        proof {
            assert(v@.drop_last() =~= before);
        }
        i = i + 1;
    }
    proof {
        if aligned {
            assert(wc.take(i as int) =~= wc);
        }
    }
    Ok(v)
}

impl CodeAttributeException {
    /// Reads the four `u16` values of an exception-table entry.
    fn new(buffer: &mut ByteReader) -> (r: Result<CodeAttributeException, IRClassfileError>)
        ensures
            final(buffer).data@ == old(buffer).data@,
            r matches Ok(e) ==> advanced(*old(buffer), *final(buffer), exception_bytes(e)),
            old(buffer).pos + 8 <= old(buffer).data@.len() ==> r is Ok,
    {
        let ghost r0 = *buffer;
        let start_pc = read_u16_ir(buffer)?;
        let ghost r1 = *buffer;
        let end_pc = read_u16_ir(buffer)?;
        let ghost r2 = *buffer;
        let handler_pc = read_u16_ir(buffer)?;
        let ghost r3 = *buffer;
        let catch_type = read_u16_ir(buffer)?;
        proof {
            let b1 = u16_bytes(start_pc);
            lemma_advanced_chain(r0, r1, r2, b1, u16_bytes(end_pc));
            let b2 = b1 + u16_bytes(end_pc);
            lemma_advanced_chain(r0, r2, r3, b2, u16_bytes(handler_pc));
            let b3 = b2 + u16_bytes(handler_pc);
            lemma_advanced_chain(r0, r3, *buffer, b3, u16_bytes(catch_type));
        }
        Ok(CodeAttributeException { start_pc, end_pc, handler_pc, catch_type })
    }
}

impl LineNumberTableAttribute {
    /// Reads a count, then that many `(start_pc, line_number)` pairs.
    pub fn new(buffer: &mut ByteReader) -> (r: Result<LineNumberTableAttribute, IRClassfileError>)
        requires
            old(buffer).wf(),
        ensures
            final(buffer).data@ == old(buffer).data@,
            r matches Ok(t) ==> t.line_number_table@.len() <= u16::MAX && advanced(
                *old(buffer),
                *final(buffer),
                u16_bytes(t.line_number_table@.len() as u16) + line_numbers_bytes(
                    t.line_number_table@,
                ),
            ),
            r is Ok <==> old(buffer).pos + 2 <= old(buffer).data@.len() && old(buffer).pos + 2 + 4
                * u16_at(old(buffer).data@, old(buffer).pos as int) <= old(buffer).data@.len(),
            r matches Ok(t) ==> t.line_number_table@.len() == u16_at(
                old(buffer).data@,
                old(buffer).pos as int,
            ),
    {
        let ghost r0 = *buffer;
        let count = read_u16_ir(buffer)?;
        let ghost r1 = *buffer;
        let mut v: Vec<LineNumberTableAttributeEntry> = Vec::new();
        let mut i: u16 = 0;
        proof {
            assert(r1.data@.subrange(r1.pos as int, r1.pos as int) =~= seq![]);
        }
        while i < count
            invariant
                r0 == *old(buffer),
                r1.pos == r0.pos + 2,
                count == u16_at(r0.data@, r0.pos as int),
                r1.data@ == r0.data@,
                buffer.data@ == r0.data@,
                i <= count,
                v@.len() == i,
                advanced(r1, *buffer, line_numbers_bytes(v@)),
                buffer.pos == r1.pos + 4 * i,
            decreases count - i,
        {
            let ghost r2 = *buffer;
            let ghost before = v@;
            let start_pc = read_u16_ir(buffer)?;
            let ghost r3 = *buffer;
            let line_number = read_u16_ir(buffer)?;
            proof {
                lemma_advanced_chain(r1, r2, r3, line_numbers_bytes(before), u16_bytes(start_pc));
                lemma_advanced_chain(
                    r1,
                    r3,
                    *buffer,
                    line_numbers_bytes(before) + u16_bytes(start_pc),
                    u16_bytes(line_number),
                );
            }
            v.push(LineNumberTableAttributeEntry { start_pc, line_number });
            proof {
                assert(v@.drop_last() =~= before);
            }
            i = i + 1;
        }
        proof {
            lemma_advanced_chain(r0, r1, *buffer, u16_bytes(count), line_numbers_bytes(v@));
        }
        Ok(LineNumberTableAttribute { line_number_table: v })
    }
}

impl InnerClassesAttributeClass {
    /// Reads one entry: inner, outer and name indices (zero for absent) and
    /// flags, the indices resolved against the typed pool.
    pub fn new(cp: &[IRCpTag], buffer: &mut ByteReader) -> (r: Result<
        InnerClassesAttributeClass,
        IRClassfileError,
    >)
        ensures
            final(buffer).data@ == old(buffer).data@,
            r matches Ok(c) ==> inner_class_in(cp@, c) && advanced(
                *old(buffer),
                *final(buffer),
                inner_class_bytes(c),
            ),
            (exists|c: InnerClassesAttributeClass|
                inner_class_in(cp@, c) && #[trigger] bytes_at(
                    old(buffer).data@,
                    old(buffer).pos as int,
                    inner_class_bytes(c),
                )) ==> r is Ok,
    {
        let ghost d = buffer.data@;
        let ghost p = buffer.pos as int;
        let ghost has = exists|c: InnerClassesAttributeClass|
            inner_class_in(cp@, c) && #[trigger] bytes_at(d, p, inner_class_bytes(c));
        let ghost w = choose|c: InnerClassesAttributeClass|
            inner_class_in(cp@, c) && #[trigger] bytes_at(d, p, inner_class_bytes(c));
        proof {
            if has {
                let b1 = u16_bytes(w.inner_class_info.index);
                let b2 = b1 + u16_bytes(opt_class_index(w.outer_class_info));
                let b3 = b2 + u16_bytes(opt_utf8_index(w.inner_name));
                lemma_bytes_at_split(d, p, b3, u16_bytes(w.inner_class_access_flags));
                lemma_bytes_at_split(d, p, b2, u16_bytes(opt_utf8_index(w.inner_name)));
                lemma_bytes_at_split(d, p, b1, u16_bytes(opt_class_index(w.outer_class_info)));
                lemma_u16_at_bytes(d, p, w.inner_class_info.index);
                lemma_u16_at_bytes(d, p + 2, opt_class_index(w.outer_class_info));
                lemma_u16_at_bytes(d, p + 4, opt_utf8_index(w.inner_name));
                lemma_u16_at_bytes(d, p + 6, w.inner_class_access_flags);
            }
        }
        let ghost r0 = *buffer;
        let inner_info_idx = read_u16_ir(buffer)?;
        let ghost r1 = *buffer;
        let outer_info_idx = read_u16_ir(buffer)?;
        let ghost r2 = *buffer;
        let inner_name_idx = read_u16_ir(buffer)?;
        let ghost r3 = *buffer;
        let inner_class_access_flags = read_u16_ir(buffer)?;
        proof {
            let b1 = u16_bytes(inner_info_idx);
            lemma_advanced_chain(r0, r1, r2, b1, u16_bytes(outer_info_idx));
            let b2 = b1 + u16_bytes(outer_info_idx);
            lemma_advanced_chain(r0, r2, r3, b2, u16_bytes(inner_name_idx));
            let b3 = b2 + u16_bytes(inner_name_idx);
            lemma_advanced_chain(r0, r3, *buffer, b3, u16_bytes(inner_class_access_flags));
        }
        let inner_class_info = CPClassRef::from_cp(cp, inner_info_idx)?;
        let outer_class_info = if outer_info_idx == 0 {
            None
        } else {
            Some(CPClassRef::from_cp(cp, outer_info_idx)?)
        };
        let inner_name = if inner_name_idx == 0 {
            None
        } else {
            Some(CPUtf8Ref::from_cp(cp, inner_name_idx)?)
        };
        Ok(
            InnerClassesAttributeClass {
                inner_class_info,
                outer_class_info,
                inner_name,
                inner_class_access_flags,
            },
        )
    }
}

impl MethodParametersParam {
    /// Reads one parameter: a name index (zero for none) and flags.
    pub fn new(cp: &[IRCpTag], buffer: &mut ByteReader) -> (r: Result<
        MethodParametersParam,
        IRClassfileError,
    >)
        ensures
            final(buffer).data@ == old(buffer).data@,
            r matches Ok(p) ==> opt_utf8_in(cp@, p.name) && advanced(
                *old(buffer),
                *final(buffer),
                parameter_bytes(p),
            ),
            (exists|q: MethodParametersParam|
                opt_utf8_in(cp@, q.name) && #[trigger] bytes_at(
                    old(buffer).data@,
                    old(buffer).pos as int,
                    parameter_bytes(q),
                )) ==> r is Ok,
    {
        let ghost d = buffer.data@;
        let ghost p = buffer.pos as int;
        let ghost has = exists|q: MethodParametersParam|
            opt_utf8_in(cp@, q.name) && #[trigger] bytes_at(d, p, parameter_bytes(q));
        let ghost w = choose|q: MethodParametersParam|
            opt_utf8_in(cp@, q.name) && #[trigger] bytes_at(d, p, parameter_bytes(q));
        proof {
            if has {
                lemma_bytes_at_split(
                    d,
                    p,
                    u16_bytes(opt_utf8_index(w.name)),
                    u16_bytes(w.access_flags),
                );
                lemma_u16_at_bytes(d, p, opt_utf8_index(w.name));
            }
        }
        let ghost r0 = *buffer;
        let name_index = read_u16_ir(buffer)?;
        let ghost r1 = *buffer;
        let access_flags = read_u16_ir(buffer)?;
        proof {
            lemma_advanced_chain(r0, r1, *buffer, u16_bytes(name_index), u16_bytes(access_flags));
        }
        let name = if name_index == 0 {
            None
        } else {
            Some(CPUtf8Ref::from_cp(cp, name_index)?)
        };
        Ok(MethodParametersParam { name, access_flags })
    }
}

proof fn lemma_inner_classes_step(
    data: Seq<u8>,
    p: int,
    w: Seq<InnerClassesAttributeClass>,
    i: int,
)
    requires
        bytes_at(data, p, inner_classes_bytes(w)),
        0 <= i < w.len(),
    ensures
        bytes_at(data, p + inner_classes_bytes(w.take(i)).len(), inner_class_bytes(w[i])),
        inner_classes_bytes(w.take(i + 1)) == inner_classes_bytes(w.take(i)) + inner_class_bytes(
            w[i],
        ),
{
    let f = |c: InnerClassesAttributeClass| inner_class_bytes(c);
    assert(inner_classes_bytes(w) == concat_bytes(w, f));
    lemma_concat_item_at(data, p, w, f, i);
    assert(inner_classes_bytes(w.take(i)) == concat_bytes(w.take(i), f));
    assert(inner_classes_bytes(w.take(i + 1)) == concat_bytes(w.take(i + 1), f));
}

/// Reads `count` entries of an `InnerClasses` attribute. Where the input
/// holds the resolved entries `w`, it reads entries with their bytes.
fn read_inner_classes(
    cp: &[IRCpTag],
    buffer: &mut ByteReader,
    count: u16,
    Ghost(w): Ghost<Option<Seq<InnerClassesAttributeClass>>>,
) -> (r: Result<Vec<InnerClassesAttributeClass>, IRClassfileError>)
    requires
        old(buffer).wf(),
    ensures
        final(buffer).data@ == old(buffer).data@,
        r matches Ok(v) ==> v@.len() == count && (forall|j: int|
            0 <= j < v@.len() ==> #[trigger] inner_class_in(cp@, v@[j])) && advanced(
            *old(buffer),
            *final(buffer),
            inner_classes_bytes(v@),
        ),
        w is Some && w->0.len() == count && (forall|j: int|
            0 <= j < w->0.len() ==> #[trigger] inner_class_in(cp@, w->0[j])) && bytes_at(
            old(buffer).data@,
            old(buffer).pos as int,
            inner_classes_bytes(w->0),
        ) ==> (r matches Ok(v) && inner_classes_bytes(v@) == inner_classes_bytes(w->0)),
{
    let ghost r0 = *buffer;
    let ghost d = r0.data@;
    let ghost aligned = w is Some && w->0.len() == count && (forall|j: int|
        0 <= j < w->0.len() ==> #[trigger] inner_class_in(cp@, w->0[j])) && bytes_at(
        d,
        r0.pos as int,
        inner_classes_bytes(w->0),
    );
    let ghost wc = w->0;
    let mut v: Vec<InnerClassesAttributeClass> = Vec::new();
    let mut i: u16 = 0;
    proof {
        assert(d.subrange(r0.pos as int, r0.pos as int) =~= seq![]);
        if aligned {
            assert(wc.take(0) =~= seq![]);
        }
    }
    while i < count
        invariant
            r0 == *old(buffer),
            d == r0.data@,
            aligned == (w is Some && w->0.len() == count && (forall|j: int|
                0 <= j < w->0.len() ==> #[trigger] inner_class_in(cp@, w->0[j])) && bytes_at(
                d,
                r0.pos as int,
                inner_classes_bytes(w->0),
            )),
            wc == w->0,
            buffer.data@ == d,
            i <= count,
            v@.len() == i,
            forall|j: int| 0 <= j < v@.len() ==> #[trigger] inner_class_in(cp@, v@[j]),
            advanced(r0, *buffer, inner_classes_bytes(v@)),
            aligned ==> inner_classes_bytes(v@) == inner_classes_bytes(wc.take(i as int)),
        decreases count - i,
    {
        let ghost r1 = *buffer;
        let ghost before = v@;
        proof {
            if aligned {
                lemma_inner_classes_step(d, r0.pos as int, wc, i as int);
                assert(inner_class_in(cp@, wc[i as int]));
            }
        }
        let c = InnerClassesAttributeClass::new(cp, buffer)?;
        proof {
            lemma_advanced_chain(
                r0,
                r1,
                *buffer,
                inner_classes_bytes(before),
                inner_class_bytes(c),
            );
            if aligned {
                assert(inner_class_bytes(c) =~= inner_class_bytes(wc[i as int]));
            }
        }
        v.push(c);
        proof {
            assert(v@.drop_last() =~= before);
            let f = |c: InnerClassesAttributeClass| inner_class_bytes(c);
            assert(inner_classes_bytes(v@) == concat_bytes(v@, f));
            assert(inner_classes_bytes(before) == concat_bytes(before, f));
        }
        i = i + 1;
    }
    proof {
        if aligned {
            assert(wc.take(i as int) =~= wc);
        }
    }
    Ok(v)
}

proof fn lemma_parameters_step(data: Seq<u8>, p: int, w: Seq<MethodParametersParam>, i: int)
    requires
        bytes_at(data, p, parameters_bytes(w)),
        0 <= i < w.len(),
    ensures
        bytes_at(data, p + parameters_bytes(w.take(i)).len(), parameter_bytes(w[i])),
        parameters_bytes(w.take(i + 1)) == parameters_bytes(w.take(i)) + parameter_bytes(w[i]),
{
    let f = |q: MethodParametersParam| parameter_bytes(q);
    assert(parameters_bytes(w) == concat_bytes(w, f));
    lemma_concat_item_at(data, p, w, f, i);
    assert(parameters_bytes(w.take(i)) == concat_bytes(w.take(i), f));
    assert(parameters_bytes(w.take(i + 1)) == concat_bytes(w.take(i + 1), f));
}

/// Reads `count` parameters of a `MethodParameters` attribute. Where the
/// input holds the resolved parameters `w`, it reads them with their bytes.
fn read_parameters(
    cp: &[IRCpTag],
    buffer: &mut ByteReader,
    count: u8,
    Ghost(w): Ghost<Option<Seq<MethodParametersParam>>>,
) -> (r: Result<Vec<MethodParametersParam>, IRClassfileError>)
    requires
        old(buffer).wf(),
    ensures
        final(buffer).data@ == old(buffer).data@,
        r matches Ok(v) ==> v@.len() == count && (forall|j: int|
            0 <= j < v@.len() ==> opt_utf8_in(cp@, #[trigger] v@[j].name)) && advanced(
            *old(buffer),
            *final(buffer),
            parameters_bytes(v@),
        ),
        w is Some && w->0.len() == count && (forall|j: int|
            0 <= j < w->0.len() ==> opt_utf8_in(cp@, #[trigger] w->0[j].name)) && bytes_at(
            old(buffer).data@,
            old(buffer).pos as int,
            parameters_bytes(w->0),
        ) ==> (r matches Ok(v) && parameters_bytes(v@) == parameters_bytes(w->0)),
{
    let ghost r0 = *buffer;
    let ghost d = r0.data@;
    let ghost aligned = w is Some && w->0.len() == count && (forall|j: int|
        0 <= j < w->0.len() ==> opt_utf8_in(cp@, #[trigger] w->0[j].name)) && bytes_at(
        d,
        r0.pos as int,
        parameters_bytes(w->0),
    );
    let ghost wp = w->0;
    let mut v: Vec<MethodParametersParam> = Vec::new();
    let mut i: u8 = 0;
    proof {
        assert(d.subrange(r0.pos as int, r0.pos as int) =~= seq![]);
        if aligned {
            assert(wp.take(0) =~= seq![]);
        }
    }
    while i < count
        invariant
            r0 == *old(buffer),
            d == r0.data@,
            aligned == (w is Some && w->0.len() == count && (forall|j: int|
                0 <= j < w->0.len() ==> opt_utf8_in(cp@, #[trigger] w->0[j].name)) && bytes_at(
                d,
                r0.pos as int,
                parameters_bytes(w->0),
            )),
            wp == w->0,
            buffer.data@ == d,
            i <= count,
            v@.len() == i,
            forall|j: int| 0 <= j < v@.len() ==> opt_utf8_in(cp@, #[trigger] v@[j].name),
            advanced(r0, *buffer, parameters_bytes(v@)),
            aligned ==> parameters_bytes(v@) == parameters_bytes(wp.take(i as int)),
        decreases count - i,
    {
        let ghost r1 = *buffer;
        let ghost before = v@;
        proof {
            if aligned {
                lemma_parameters_step(d, r0.pos as int, wp, i as int);
                assert(opt_utf8_in(cp@, wp[i as int].name));
            }
        }
        let q = MethodParametersParam::new(cp, buffer)?;
        proof {
            lemma_advanced_chain(r0, r1, *buffer, parameters_bytes(before), parameter_bytes(q));
            if aligned {
                assert(parameter_bytes(q) =~= parameter_bytes(wp[i as int]));
            }
        }
        v.push(q);
        proof {
            assert(v@.drop_last() =~= before);
            let f = |q: MethodParametersParam| parameter_bytes(q);
            assert(parameters_bytes(v@) == concat_bytes(v@, f));
            assert(parameters_bytes(before) == concat_bytes(before, f));
        }
        i = i + 1;
    }
    proof {
        if aligned {
            assert(wp.take(i as int) =~= wp);
        }
    }
    Ok(v)
}

/// Reads `count` annotations one after another. Where the input holds the
/// well-formed annotations `w`, whose references resolve, it reads
/// annotations with their bytes.
fn read_annotations(
    cp: &[IRCpTag],
    buffer: &mut ByteReader,
    count: u16,
    Ghost(w): Ghost<Option<Seq<RuntimeAnnotation>>>,
) -> (r: Result<Vec<RuntimeAnnotation>, IRClassfileError>)
    requires
        old(buffer).wf(),
    ensures
        final(buffer).data@ == old(buffer).data@,
        r matches Ok(v) ==> v@.len() == count && annotations_in(cp@, v@) && advanced(
            *old(buffer),
            *final(buffer),
            annotations_bytes(v@),
        ),
        w is Some && w->0.len() == count && annotations_wf(w->0) && annotations_in(cp@, w->0)
            && bytes_at(old(buffer).data@, old(buffer).pos as int, annotations_bytes(w->0)) ==> (
        r matches Ok(v) && annotations_bytes(v@) == annotations_bytes(w->0)),
{
    let ghost r0 = *buffer;
    let ghost d = r0.data@;
    let ghost aligned = w is Some && w->0.len() == count && annotations_wf(w->0) && annotations_in(
        cp@,
        w->0,
    ) && bytes_at(d, r0.pos as int, annotations_bytes(w->0));
    let ghost wa = w->0;
    let mut v: Vec<RuntimeAnnotation> = Vec::new();
    let mut i: u16 = 0;
    proof {
        assert(d.subrange(r0.pos as int, r0.pos as int) =~= seq![]);
        if aligned {
            assert(wa.take(0) =~= seq![]);
        }
    }
    while i < count
        invariant
            r0 == *old(buffer),
            d == r0.data@,
            aligned == (w is Some && w->0.len() == count && annotations_wf(w->0) && annotations_in(
                cp@,
                w->0,
            ) && bytes_at(d, r0.pos as int, annotations_bytes(w->0))),
            wa == w->0,
            buffer.data@ == d,
            i <= count,
            v@.len() == i,
            annotations_in(cp@, v@),
            advanced(r0, *buffer, annotations_bytes(v@)),
            aligned ==> annotations_bytes(v@) == annotations_bytes(wa.take(i as int)),
        decreases count - i,
    {
        let ghost r1 = *buffer;
        let ghost before = v@;
        proof {
            if aligned {
                lemma_annotations_step(d, r0.pos as int, wa, i as int);
                assert(annotation_wf(wa[i as int]));
                assert(annotation_refs_in(cp@, wa[i as int]));
            }
        }
        let a = read_annotation(
            cp,
            buffer,
            Ghost(
                if aligned {
                    Some(wa[i as int])
                } else {
                    None
                },
            ),
        )?;
        proof {
            lemma_advanced_chain(r0, r1, *buffer, annotations_bytes(before), annotation_bytes(a));
        }
        v.push(a);
        proof {
            assert(v@.drop_last() =~= before);
            let f = |a: RuntimeAnnotation| annotation_bytes(a);
            assert(annotations_bytes(v@) == concat_bytes(v@, f));
            assert(annotations_bytes(before) == concat_bytes(before, f));
        }
        i = i + 1;
    }
    proof {
        if aligned {
            assert(wa.take(i as int) =~= wa);
        }
    }
    Ok(v)
}

/// Reads a `u8` count of parameters, then for each a `u16` count and that
/// many annotations.
fn read_param_annotations(
    cp: &[IRCpTag],
    buffer: &mut ByteReader,
    Ghost(w): Ghost<Option<Seq<Vec<RuntimeAnnotation>>>>,
) -> (r: Result<Vec<Vec<RuntimeAnnotation>>, IRClassfileError>)
    requires
        old(buffer).wf(),
    ensures
        final(buffer).data@ == old(buffer).data@,
        r matches Ok(v) ==> v@.len() <= u8::MAX && (forall|i: int|
            0 <= i < v@.len() ==> annotations_in(cp@, #[trigger] v@[i]@)) && advanced(
            *old(buffer),
            *final(buffer),
            seq![v@.len() as u8] + param_annotations_bytes(v@),
        ),
        w is Some && w->0.len() <= u8::MAX && params_wf(w->0) && (forall|i: int|
            0 <= i < w->0.len() ==> annotations_in(cp@, #[trigger] w->0[i]@)) && bytes_at(
            old(buffer).data@,
            old(buffer).pos as int,
            seq![w->0.len() as u8] + param_annotations_bytes(w->0),
        ) ==> (r matches Ok(v) && param_annotations_bytes(v@) == param_annotations_bytes(w->0)
            && v@.len() == w->0.len()),
{
    let ghost r0 = *buffer;
    let ghost d = r0.data@;
    let ghost aligned = w is Some && w->0.len() <= u8::MAX && params_wf(w->0) && (forall|i: int|
        0 <= i < w->0.len() ==> annotations_in(cp@, #[trigger] w->0[i]@)) && bytes_at(
        d,
        r0.pos as int,
        seq![w->0.len() as u8] + param_annotations_bytes(w->0),
    );
    let ghost wp = w->0;
    proof {
        if aligned {
            lemma_bytes_at_split(
                d,
                r0.pos as int,
                seq![wp.len() as u8],
                param_annotations_bytes(wp),
            );
            assert(d[r0.pos as int] == d.subrange(r0.pos as int, r0.pos + 1)[0]);
            assert(wp.take(0) =~= seq![]);
        }
    }
    let count = read_u8_ir(buffer)?;
    let ghost r1 = *buffer;
    let mut v: Vec<Vec<RuntimeAnnotation>> = Vec::new();
    let mut i: u8 = 0;
    proof {
        assert(r1.data@.subrange(r1.pos as int, r1.pos as int) =~= seq![]);
    }
    while i < count
        invariant
            r0 == *old(buffer),
            d == r0.data@,
            aligned == (w is Some && w->0.len() <= u8::MAX && params_wf(w->0) && (forall|i: int|
                0 <= i < w->0.len() ==> annotations_in(cp@, #[trigger] w->0[i]@)) && bytes_at(
                d,
                r0.pos as int,
                seq![w->0.len() as u8] + param_annotations_bytes(w->0),
            )),
            wp == w->0,
            r1.data@ == r0.data@,
            r1.pos == r0.pos + 1,
            buffer.data@ == r0.data@,
            i <= count,
            v@.len() == i,
            forall|j: int| 0 <= j < v@.len() ==> annotations_in(cp@, #[trigger] v@[j]@),
            advanced(r1, *buffer, param_annotations_bytes(v@)),
            aligned ==> count == wp.len() && bytes_at(d, r1.pos as int, param_annotations_bytes(wp))
                && param_annotations_bytes(v@) == param_annotations_bytes(wp.take(i as int)),
        decreases count - i,
    {
        let ghost r2 = *buffer;
        let ghost before = v@;
        let ghost list = wp[i as int]@;
        proof {
            if aligned {
                lemma_params_step(d, r1.pos as int, wp, i as int);
                assert(wp[i as int]@.len() <= u16::MAX && annotations_wf(list));
                assert(annotations_in(cp@, wp[i as int]@));
                lemma_bytes_at_split(
                    d,
                    r2.pos as int,
                    u16_bytes(list.len() as u16),
                    annotations_bytes(list),
                );
                lemma_u16_at_bytes(d, r2.pos as int, list.len() as u16);
            }
        }
        let n = read_u16_ir(buffer)?;
        let ghost r3 = *buffer;
        let annotations = read_annotations(
            cp,
            buffer,
            n,
            Ghost(
                if aligned {
                    Some(list)
                } else {
                    None
                },
            ),
        )?;
        proof {
            lemma_advanced_chain(r1, r2, r3, param_annotations_bytes(before), u16_bytes(n));
            lemma_advanced_chain(
                r1,
                r3,
                *buffer,
                param_annotations_bytes(before) + u16_bytes(n),
                annotations_bytes(annotations@),
            );
        }
        v.push(annotations);
        proof {
            assert(v@.drop_last() =~= before);
            let f = |v: Vec<RuntimeAnnotation>| param_list_bytes(v);
            assert(param_annotations_bytes(v@) == concat_bytes(v@, f));
            assert(param_annotations_bytes(before) == concat_bytes(before, f));
            assert(param_annotations_bytes(v@) =~= param_annotations_bytes(before) + u16_bytes(n)
                + annotations_bytes(v@.last()@));
        }
        i = i + 1;
    }
    proof {
        lemma_advanced_chain(r0, r1, *buffer, seq![count], param_annotations_bytes(v@));
        if aligned {
            assert(wp.take(i as int) =~= wp);
        }
    }
    Ok(v)
}


impl ConstantValueAttribute {
    /// Reads a pool index and takes the constant that slot holds.
    fn new(
        cp: &[IRCpTag],
        buffer: &mut ByteReader,
        Ghost(w): Ghost<Option<ConstantValueAttribute>>,
    ) -> (r: Result<ConstantValueAttribute, IRClassfileError>)
        ensures
            final(buffer).data@ == old(buffer).data@,
            r matches Ok(c) ==> c.refs_in(cp@) && advanced(
                *old(buffer),
                *final(buffer),
                u16_bytes(c.spec_cp_idx()),
            ),
            w is Some && w->0.refs_in(cp@) && bytes_at(
                old(buffer).data@,
                old(buffer).pos as int,
                u16_bytes(w->0.spec_cp_idx()),
            ) ==> r is Ok,
    {
        let ghost r0 = *buffer;
        proof {
            if w is Some && w->0.refs_in(cp@) && bytes_at(
                r0.data@,
                r0.pos as int,
                u16_bytes(w->0.spec_cp_idx()),
            ) {
                lemma_u16_at_bytes(r0.data@, r0.pos as int, w->0.spec_cp_idx());
            }
        }
        let cp_idx = read_u16_ir(buffer)?;
        assert(cp_idx == u16_at(r0.data@, r0.pos as int));
        if cp_idx == 0 || cp_idx as usize > cp.len() {
            return Err(IRClassfileError::IndexOutOfRange { index: cp_idx, size: cp.len() });
        }
        match &cp[(cp_idx - 1) as usize] {
            IRCpTag::Integer(value) => Ok(ConstantValueAttribute::Int { cp_idx, value: *value }),
            IRCpTag::Float(bits) => Ok(ConstantValueAttribute::Float { cp_idx, bits: *bits }),
            IRCpTag::Long(value) => Ok(ConstantValueAttribute::Long { cp_idx, value: *value }),
            IRCpTag::Double(bits) => Ok(ConstantValueAttribute::Double { cp_idx, bits: *bits }),
            IRCpTag::String(u) => Ok(ConstantValueAttribute::String { cp_idx, value: u.share() }),
            t => Err(IRClassfileError::WrongReferent { expected: 3, got: t.id() }),
        }
    }
}

/// `c` is a simple `Code` attribute whose nested attributes resolve against
/// `cp`, and its payload bytes stand in `s` at `p`.
pub open spec fn code_at(cp: Seq<IRCpTag>, s: Seq<u8>, p: int, c: CodeAttribute) -> bool {
    &&& code_simple(c)
    &&& nested_in(cp, c.attributes@)
    &&& bytes_at(s, p, attribute_bytes(IRAttribute::Code(c)))
}

impl CodeAttribute {
    /// Reads the stack and locals limits, the bytecode, the exception table
    /// and the nested attributes, each decoded in turn. Where the input holds
    /// a `Code` payload whose nested attributes are simple and resolve,
    /// reading succeeds.
    pub fn new(cp: &[IRCpTag], buffer: &mut ByteReader) -> (r: Result<
        CodeAttribute,
        IRClassfileError,
    >)
        requires
            old(buffer).wf(),
        ensures
            final(buffer).data@ == old(buffer).data@,
            r matches Ok(c) ==> nested_in(cp@, c.attributes@) && advanced(
                *old(buffer),
                *final(buffer),
                attribute_bytes(IRAttribute::Code(c)),
            ),
            (exists|c: CodeAttribute|
                #[trigger] code_at(cp@, old(buffer).data@, old(buffer).pos as int, c)) ==> r is Ok,
    {
        let ghost d = buffer.data@;
        let ghost p = buffer.pos as int;
        let ghost has = exists|c: CodeAttribute| #[trigger] code_at(cp@, d, p, c);
        let ghost w = choose|c: CodeAttribute| #[trigger] code_at(cp@, d, p, c);
        CodeAttribute::read(
            cp,
            buffer,
            Ghost(
                if has {
                    Some(w)
                } else {
                    None
                },
            ),
        )
    }

    /// Reads a `Code` payload; where the input holds the payload of `wopt`,
    /// it reads one with the same bytes.
    #[verifier::rlimit(100)]
    #[verifier::spinoff_prover]
    fn read(
        cp: &[IRCpTag],
        buffer: &mut ByteReader,
        Ghost(wopt): Ghost<Option<CodeAttribute>>,
    ) -> (r: Result<CodeAttribute, IRClassfileError>)
        requires
            old(buffer).wf(),
        ensures
            final(buffer).data@ == old(buffer).data@,
            r matches Ok(c) ==> nested_in(cp@, c.attributes@) && advanced(
                *old(buffer),
                *final(buffer),
                attribute_bytes(IRAttribute::Code(c)),
            ),
            wopt is Some && code_at(cp@, old(buffer).data@, old(buffer).pos as int, wopt->0) ==> (
            r matches Ok(c) && attribute_bytes(IRAttribute::Code(c)) == attribute_bytes(
                IRAttribute::Code(wopt->0),
            )),
        decreases old(buffer).data@.len() - old(buffer).pos, 0int,
    {
        let ghost r0 = *buffer;
        let ghost d = r0.data@;
        let ghost p = r0.pos as int;
        let ghost aligned = wopt is Some && code_at(cp@, d, p, wopt->0);
        let ghost w = wopt->0;
        let ghost wl = w.code@.len();
        let ghost we = w.exception_table@;
        let ghost wn = w.attributes@;
        let ghost p1 = u16_bytes(w.max_stack);
        let ghost p2 = p1 + u16_bytes(w.max_locals);
        let ghost p3 = p2 + u32_bytes(wl as u32);
        let ghost p4 = p3 + w.code@;
        let ghost p5 = p4 + u16_bytes(we.len() as u16);
        let ghost p6 = p5 + exceptions_bytes(we);
        let ghost p7 = p6 + u16_bytes(wn.len() as u16);
        proof {
            if aligned {
                assert(attribute_bytes(IRAttribute::Code(w)) == p7 + nested_bytes(wn));
                lemma_bytes_at_split(d, p, p7, nested_bytes(wn));
                lemma_bytes_at_split(d, p, p6, u16_bytes(wn.len() as u16));
                lemma_bytes_at_split(d, p, p5, exceptions_bytes(we));
                lemma_bytes_at_split(d, p, p4, u16_bytes(we.len() as u16));
                lemma_bytes_at_split(d, p, p3, w.code@);
                lemma_bytes_at_split(d, p, p2, u32_bytes(wl as u32));
                lemma_bytes_at_split(d, p, p1, u16_bytes(w.max_locals));
                lemma_u16_at_bytes(d, p, w.max_stack);
                lemma_u16_at_bytes(d, p + 2, w.max_locals);
                lemma_u32_at_bytes(d, p + 4, wl as u32);
                lemma_u16_at_bytes(d, p + p4.len(), we.len() as u16);
                lemma_u16_at_bytes(d, p + p6.len(), wn.len() as u16);
            }
        }
        let max_stack = read_u16_ir(buffer)?;
        let ghost r1 = *buffer;
        let max_locals = read_u16_ir(buffer)?;
        let ghost r2 = *buffer;
        let code_len = match buffer.read_u32() {
            Ok(v) => v,
            Err(e) => return Err(IRClassfileError::Bytes(e)),
        };
        let ghost r3 = *buffer;
        let code = match buffer.read_n_bytes_vec(code_len as usize) {
            Ok(v) => v,
            Err(e) => return Err(IRClassfileError::Bytes(e)),
        };
        let ghost r4 = *buffer;
        proof {
            if aligned {
                assert(code@ =~= w.code@);
            }
        }
        let exception_table_len = read_u16_ir(buffer)?;
        let ghost r5 = *buffer;
        proof {
            let b1 = u16_bytes(max_stack);
            lemma_advanced_chain(r0, r1, r2, b1, u16_bytes(max_locals));
            let b2 = b1 + u16_bytes(max_locals);
            lemma_advanced_chain(r0, r2, r3, b2, u32_bytes(code_len));
            let b3 = b2 + u32_bytes(code_len);
            lemma_advanced_chain(r0, r3, r4, b3, code@);
            let b4 = b3 + code@;
            lemma_advanced_chain(r0, r4, r5, b4, u16_bytes(exception_table_len));
            assert(r5.data@.subrange(r5.pos as int, r5.pos as int) =~= seq![]);
            if aligned {
                assert(we.take(0) =~= seq![]);
            }
        }
        let ghost head = u16_bytes(max_stack) + u16_bytes(max_locals) + u32_bytes(code_len)
            + code@ + u16_bytes(exception_table_len);
        let mut exception_table: Vec<CodeAttributeException> = Vec::new();
        let mut i: u16 = 0;
        while i < exception_table_len
            invariant
                r0 == *old(buffer),
                d == r0.data@,
                aligned == (wopt is Some && code_at(cp@, d, r0.pos as int, wopt->0)),
                w == wopt->0,
                we == w.exception_table@,
                wn == w.attributes@,
                r5.data@ == r0.data@,
                buffer.data@ == r0.data@,
                i <= exception_table_len,
                exception_table@.len() == i,
                advanced(r5, *buffer, exceptions_bytes(exception_table@)),
                aligned ==> exception_table_len == we.len() && bytes_at(
                    d,
                    r5.pos as int,
                    exceptions_bytes(we),
                ) && exceptions_bytes(exception_table@) == exceptions_bytes(we.take(i as int)),
            decreases exception_table_len - i,
        {
            let ghost r6 = *buffer;
            let ghost before = exception_table@;
            proof {
                if aligned {
                    lemma_exceptions_step(d, r5.pos as int, we, i as int);
                }
            }
            let e = CodeAttributeException::new(buffer)?;
            proof {
                lemma_advanced_chain(r5, r6, *buffer, exceptions_bytes(before), exception_bytes(e));
                if aligned {
                    assert(exception_bytes(e) =~= exception_bytes(we[i as int]));
                }
            }
            exception_table.push(e);
            proof {
                assert(exception_table@.drop_last() =~= before);
                let f = |e: CodeAttributeException| exception_bytes(e);
                assert(exceptions_bytes(exception_table@) == concat_bytes(exception_table@, f));
                assert(exceptions_bytes(before) == concat_bytes(before, f));
            }
            i = i + 1;
        }
        proof {
            lemma_advanced_chain(r0, r5, *buffer, head, exceptions_bytes(exception_table@));
            if aligned {
                assert(we.take(i as int) =~= we);
            }
        }
        let ghost head2 = head + exceptions_bytes(exception_table@);
        let ghost r6 = *buffer;
        let attribute_len = read_u16_ir(buffer)?;
        let ghost r7 = *buffer;
        proof {
            lemma_advanced_chain(r0, r6, r7, head2, u16_bytes(attribute_len));
            assert(r7.data@.subrange(r7.pos as int, r7.pos as int) =~= seq![]);
            if aligned {
                assert(wn.take(0) =~= seq![]);
            }
        }
        let mut attributes: Vec<Box<IRAttributeInfo>> = Vec::new();
        let mut i: u16 = 0;
        while i < attribute_len
            invariant
                r0 == *old(buffer),
                d == r0.data@,
                aligned == (wopt is Some && code_at(cp@, d, r0.pos as int, wopt->0)),
                w == wopt->0,
                we == w.exception_table@,
                wn == w.attributes@,
                r0.wf(),
                r7.data@ == r0.data@,
                r7.pos >= r0.pos,
                buffer.data@ == r0.data@,
                i <= attribute_len,
                attributes@.len() == i,
                nested_in(cp@, attributes@),
                advanced(r7, *buffer, nested_bytes(attributes@)),
                aligned ==> attribute_len == wn.len() && code_simple(w) && nested_in(cp@, wn)
                    && bytes_at(d, r7.pos as int, nested_bytes(wn)) && nested_bytes(attributes@)
                    == nested_bytes(wn.take(i as int)),
            decreases attribute_len - i,
        {
            let ghost r8 = *buffer;
            let ghost before = attributes@;
            let ghost n = *wn[i as int];
            proof {
                if aligned {
                    lemma_nested_step(d, r7.pos as int, wn, i as int);
                    lemma_nested_in_item(cp@, wn, i as int);
                    lemma_nested_item_at(d, r8.pos as int, n);
                }
            }
            let raw = match IOAttributeInfo::read(buffer) {
                Ok(a) => a,
                Err(e) => return Err(IRClassfileError::Bytes(e)),
            };
            proof {
                if aligned {
                    assert(flat_attribute(wn[i as int].attr));
                    lemma_nested_raw_info(d, r8.pos as int, n, raw);
                    lemma_nested_raw(cp@, n, raw);
                }
            }
            let info = IRAttributeInfo::from_io(cp, &raw)?;
            proof {
                lemma_advanced_chain(r7, r8, *buffer, nested_bytes(before), raw.spec_bytes());
            }
            attributes.push(Box::new(info));
            proof {
                assert(attributes@.drop_last() =~= before);
                assert(nested_bytes(attributes@) =~= nested_bytes(before) + raw.spec_bytes());
            }
            i = i + 1;
        }
        proof {
            lemma_advanced_chain(
                r0,
                r7,
                *buffer,
                head2 + u16_bytes(attribute_len),
                nested_bytes(attributes@),
            );
            if aligned {
                assert(wn.take(i as int) =~= wn);
            }
        }
        Ok(CodeAttribute { max_stack, max_locals, code, exception_table, attributes })
    }
}

/// Where a nested attribute stands, its header gives its name index and a
/// length that fits.
proof fn lemma_nested_item_at(d: Seq<u8>, p: int, n: IRAttributeInfo)
    requires
        bytes_at(d, p, nested_item_bytes(n)),
        attribute_bytes(n.attr).len() == n.length,
    ensures
        p + 6 <= d.len(),
        p + 6 + u32_at(d, p + 2) <= d.len(),
        u16_at(d, p) == n.name.index,
        u32_at(d, p + 2) == n.length,
{
    lemma_bytes_at_split(
        d,
        p,
        u16_bytes(n.name.index) + u32_bytes(n.length),
        attribute_bytes(n.attr),
    );
    lemma_bytes_at_split(d, p, u16_bytes(n.name.index), u32_bytes(n.length));
    lemma_u16_at_bytes(d, p, n.name.index);
    lemma_u32_at_bytes(d, p + 2, n.length);
}

/// The raw attribute read where a nested attribute stands has that
/// attribute's payload.
proof fn lemma_nested_raw_info(d: Seq<u8>, p: int, n: IRAttributeInfo, raw: IOAttributeInfo)
    requires
        bytes_at(d, p, nested_item_bytes(n)),
        bytes_at(d, p, raw.spec_bytes()),
        raw.spec_bytes().len() == nested_item_bytes(n).len(),
    ensures
        raw.info@ == attribute_bytes(n.attr),
{
    assert(raw.spec_bytes() =~= nested_item_bytes(n));
    assert(raw.info@ =~= raw.spec_bytes().subrange(6, raw.spec_bytes().len() as int));
    assert(attribute_bytes(n.attr) =~= nested_item_bytes(n).subrange(
        6,
        nested_item_bytes(n).len() as int,
    ));
}

/// A payload that is exactly the bytes of a resolving simple attribute of
/// the name its index gives is a simple payload.
proof fn lemma_nested_raw(cp: Seq<IRCpTag>, n: IRAttributeInfo, raw: IOAttributeInfo)
    requires
        raw.info@ == attribute_bytes(n.attr),
        raw.attribute_name_index == n.name.index,
        flat_attribute(n.attr),
        utf8_ref_in(cp, n.name.index, n.name),
        n.attr.spec_name() == n.name.data@,
        attribute_refs_in(cp, n.attr),
    ensures
        simple_payload(cp, raw),
{
    assert(raw.info@.subrange(0, raw.info@.len() as int) =~= raw.info@);
    assert(bytes_at(raw.info@, 0, attribute_bytes(n.attr)));
    assert(simple_attribute_at(cp, n.name.data@, raw.info@, 0, n.attr));
}

/// An item of a resolving list of nested attributes resolves.
proof fn lemma_nested_in_item(cp: Seq<IRCpTag>, s: Seq<Box<IRAttributeInfo>>, i: int)
    requires
        nested_in(cp, s),
        0 <= i < s.len(),
    ensures
        utf8_ref_in(cp, s[i].name.index, s[i].name),
        s[i].attr.spec_name() == s[i].name.data@,
        attribute_bytes(s[i].attr).len() == s[i].length,
        attribute_refs_in(cp, s[i].attr),
    decreases s.len(),
{
    if i < s.len() - 1 {
        assert(s.drop_last()[i] == s[i]);
        lemma_nested_in_item(cp, s.drop_last(), i);
    }
}

/// `i` is the attribute `raw` decoded against the typed pool: the same name
/// index and length, a payload whose bytes are `raw`'s, and resolved
/// references.
pub open spec fn attribute_lifted(
    cp: Seq<IRCpTag>,
    raw: IOAttributeInfo,
    i: IRAttributeInfo,
) -> bool {
    &&& i.name.index == raw.attribute_name_index
    &&& utf8_ref_in(cp, i.name.index, i.name)
    &&& i.attr.spec_name() == i.name.data@
    &&& i.length == raw.attribute_length
    &&& attribute_bytes(i.attr) == raw.info@
    &&& attribute_bytes(i.attr).len() == i.length
    &&& attribute_refs_in(cp, i.attr)
}

/// `raw`'s name index resolves to a `Utf8` slot and its payload is exactly
/// the bytes of a simple attribute of that name with resolved references.
pub open spec fn simple_payload(cp: Seq<IRCpTag>, raw: IOAttributeInfo) -> bool {
    let n = raw.attribute_name_index;
    &&& 1 <= n <= cp.len()
    &&& match cp[n - 1] {
        IRCpTag::Utf8(t) => exists|a: IRAttribute|
            #[trigger] simple_attribute_at(cp, t@, raw.info@, 0, a) && attribute_bytes(a).len()
                == raw.info@.len(),
        _ => false,
    }
}

/// `raw`'s name index resolves to a `Utf8` slot and its payload starts with
/// the bytes of a simple attribute of that name with resolved references,
/// which end before the payload does.
pub open spec fn trailing_payload(cp: Seq<IRCpTag>, raw: IOAttributeInfo) -> bool {
    let n = raw.attribute_name_index;
    &&& 1 <= n <= cp.len()
    &&& match cp[n - 1] {
        IRCpTag::Utf8(t) => exists|a: IRAttribute|
            #[trigger] simple_attribute_at(cp, t@, raw.info@, 0, a) && attribute_bytes(a).len()
                < raw.info@.len(),
        _ => false,
    }
}

impl IRAttributeInfo {
    /// Decodes the payload of `raw` by the name its index resolves to. The
    /// payload must be consumed exactly: what is left is `TrailingBytes`.
    /// Where the payload is that of a simple attribute of that name whose
    /// references resolve, decoding succeeds; where such an attribute ends
    /// before the payload does, the result is `TrailingBytes`.
    pub fn from_io(cp: &[IRCpTag], raw: &IOAttributeInfo) -> (r: Result<
        IRAttributeInfo,
        IRClassfileError,
    >)
        requires
            raw.wf(),
        ensures
            r matches Ok(i) ==> attribute_lifted(cp@, *raw, i),
            ref_error(cp@, raw.attribute_name_index, 1) is Some ==> r == Err::<
                IRAttributeInfo,
                IRClassfileError,
            >(ref_error(cp@, raw.attribute_name_index, 1)->0),
            simple_payload(cp@, *raw) ==> r is Ok,
            trailing_payload(cp@, *raw) && !simple_payload(cp@, *raw) ==> r == Err::<
                IRAttributeInfo,
                IRClassfileError,
            >(
                IRClassfileError::TrailingBytes,
            ),
        decreases raw.info@.len(), 2int,
    {
        let name = CPUtf8Ref::from_cp(cp, raw.attribute_name_index)?;
        let ghost info = raw.info@;
        let ghost fill = exists|a: IRAttribute|
            #[trigger] simple_attribute_at(cp@, name.data@, info, 0, a) && attribute_bytes(a).len()
                == info.len();
        let ghost short = exists|a: IRAttribute|
            #[trigger] simple_attribute_at(cp@, name.data@, info, 0, a) && attribute_bytes(a).len()
                < info.len();
        let ghost w = if fill {
            choose|a: IRAttribute|
                #[trigger] simple_attribute_at(cp@, name.data@, info, 0, a)
                    && attribute_bytes(a).len() == info.len()
        } else {
            choose|a: IRAttribute|
                #[trigger] simple_attribute_at(cp@, name.data@, info, 0, a)
                    && attribute_bytes(a).len() < info.len()
        };
        let mut reader = ByteReader::new(raw.info.as_slice());
        let attr = IRAttribute::decode(
            &name,
            cp,
            &mut reader,
            Ghost(
                if fill || short {
                    Some(w)
                } else {
                    None
                },
            ),
        )?;
        if reader.pos != raw.info.len() {
            return Err(IRClassfileError::TrailingBytes);
        }
        assert(raw.info@.subrange(0, reader.pos as int) =~= raw.info@);
        Ok(IRAttributeInfo { name, length: raw.attribute_length, attr })
    }
}


/// The attributes whose decoding is owed success on their own bytes, leaving
/// aside `Code`: every other kind, with its counts fitting their fields and
/// its annotations well formed.
pub open spec fn flat_attribute(a: IRAttribute) -> bool {
    match a {
        IRAttribute::ConstantValue(..) => true,
        IRAttribute::Signature(..) => true,
        IRAttribute::SourceFile(..) => true,
        IRAttribute::NestHost(..) => true,
        IRAttribute::EnclosingMethod { .. } => true,
        IRAttribute::Synthetic => true,
        IRAttribute::Deprecated => true,
        IRAttribute::AnnotationDefault(..) => true,
        IRAttribute::BootstrapMethods(..) => true,
        IRAttribute::Exceptions { exception_index_table } => exception_index_table@.len()
            <= u16::MAX,
        IRAttribute::NestMembers { classes } => classes@.len() <= u16::MAX,
        IRAttribute::LineNumberTable(t) => t.line_number_table@.len() <= u16::MAX,
        IRAttribute::InnerClasses(t) => t.classes@.len() <= u16::MAX,
        IRAttribute::MethodParameters { parameters } => parameters@.len() <= u8::MAX,
        IRAttribute::StackMapTable(t) => t.entries@.len() <= u16::MAX && forall|i: int|
            0 <= i < t.entries@.len() ==> #[trigger] t.entries@[i].wf(),
        IRAttribute::RuntimeVisibleAnnotations { annotations } => annotations@.len() <= u16::MAX
            && annotations_wf(annotations@),
        IRAttribute::RuntimeInvisibleAnnotations { annotations } => annotations@.len()
            <= u16::MAX && annotations_wf(annotations@),
        IRAttribute::RuntimeVisibleParameterAnnotations { params } => params@.len() <= u8::MAX
            && params_wf(params@),
        IRAttribute::RuntimeInvisibleParameterAnnotations { params } => params@.len()
            <= u8::MAX && params_wf(params@),
        _ => false,
    }
}

/// A `Code` attribute whose lists fit their counts and whose nested
/// attributes are all of the kinds above.
pub open spec fn code_simple(c: CodeAttribute) -> bool {
    &&& c.code@.len() <= u32::MAX
    &&& c.exception_table@.len() <= u16::MAX
    &&& c.attributes@.len() <= u16::MAX
    &&& forall|i: int|
        0 <= i < c.attributes@.len() ==> flat_attribute(#[trigger] c.attributes@[i].attr)
}

/// The attributes whose decoding is owed success on their own bytes: those
/// above, and a `Code` attribute whose nested attributes are all of them.
pub open spec fn simple_attribute(a: IRAttribute) -> bool {
    match a {
        IRAttribute::Code(c) => code_simple(c),
        _ => flat_attribute(a),
    }
}

/// `a` is a simple attribute named `name`, its references resolve against
/// `cp`, and its payload bytes stand in `s` at `p`; a payload kept as bytes
/// runs to the end of `s`.
pub open spec fn simple_attribute_at(
    cp: Seq<IRCpTag>,
    name: Seq<char>,
    s: Seq<u8>,
    p: int,
    a: IRAttribute,
) -> bool {
    &&& simple_attribute(a)
    &&& a.spec_name() == name
    &&& attribute_refs_in(cp, a)
    &&& bytes_at(s, p, attribute_bytes(a))
    &&& (a is AnnotationDefault || a is BootstrapMethods) ==> p + attribute_bytes(a).len()
        == s.len()
}

impl IRAttribute {
    /// Decodes a payload by the attribute's name. A name with no decoder is
    /// `UnknownAttribute`; `AnnotationDefault` and `BootstrapMethods` keep
    /// the rest of the payload as bytes. Where the input holds the payload of
    /// a simple attribute of that name whose references resolve, decoding
    /// succeeds.
    pub fn new(name: &CPUtf8Ref, cp: &[IRCpTag], data: &mut ByteReader) -> (r: Result<
        IRAttribute,
        IRClassfileError,
    >)
        requires
            old(data).wf(),
        ensures
            final(data).data@ == old(data).data@,
            r matches Ok(a) ==> a.spec_name() == name.data@ && attribute_refs_in(cp@, a)
                && advanced(*old(data), *final(data), attribute_bytes(a)),
            !known_attribute(name.data@) ==> (r matches Err(e)
                && e matches IRClassfileError::UnknownAttribute(n) && n@ == name.data@),
            (exists|a: IRAttribute|
                #[trigger] simple_attribute_at(
                    cp@,
                    name.data@,
                    old(data).data@,
                    old(data).pos as int,
                    a,
                )) ==> r is Ok,
    {
        let ghost d = data.data@;
        let ghost p = data.pos as int;
        let ghost has = exists|a: IRAttribute|
            #[trigger] simple_attribute_at(cp@, name.data@, d, p, a);
        let ghost w = choose|a: IRAttribute|
            #[trigger] simple_attribute_at(cp@, name.data@, d, p, a);
        IRAttribute::decode(
            name,
            cp,
            data,
            Ghost(
                if has {
                    Some(w)
                } else {
                    None
                },
            ),
        )
    }

    /// Decodes a payload by the attribute's name. Where the input holds the
    /// payload of the simple attribute `wopt`, decoding succeeds and consumes
    /// exactly its bytes.
    #[verifier::rlimit(100)]
    #[verifier::spinoff_prover]
    fn decode(
        name: &CPUtf8Ref,
        cp: &[IRCpTag],
        data: &mut ByteReader,
        Ghost(wopt): Ghost<Option<IRAttribute>>,
    ) -> (r: Result<IRAttribute, IRClassfileError>)
        requires
            old(data).wf(),
        ensures
            final(data).data@ == old(data).data@,
            r matches Ok(a) ==> a.spec_name() == name.data@ && attribute_refs_in(cp@, a)
                && advanced(*old(data), *final(data), attribute_bytes(a)),
            !known_attribute(name.data@) ==> (r matches Err(e)
                && e matches IRClassfileError::UnknownAttribute(n) && n@ == name.data@),
            wopt is Some && simple_attribute_at(
                cp@,
                name.data@,
                old(data).data@,
                old(data).pos as int,
                wopt->0,
            ) ==> (r is Ok && final(data).pos == old(data).pos + attribute_bytes(wopt->0).len()),
        decreases old(data).data@.len() - old(data).pos, 1int,
    {
        let ghost r0 = *data;
        let ghost d = r0.data@;
        let ghost has = wopt is Some && simple_attribute_at(
            cp@,
            name.data@,
            d,
            r0.pos as int,
            wopt->0,
        );
        let ghost w = wopt->0;
        proof {
            if has {
                lemma_name_kind(w);
            }
        }
        if name_is(name, "ConstantValue") {
            proof {
                if has {
                    assert(w is ConstantValue);
                }
            }
            let c = ConstantValueAttribute::new(
                cp,
                data,
                Ghost(
                    if has {
                        Some(w->ConstantValue_0)
                    } else {
                        None
                    },
                ),
            )?;
            Ok(IRAttribute::ConstantValue(c))
        } else if name_is(name, "Code") {
            proof {
                if has {
                    assert(w is Code);
                }
            }
            let c = CodeAttribute::read(
                cp,
                data,
                Ghost(
                    if has {
                        Some(w->Code_0)
                    } else {
                        None
                    },
                ),
            )?;
            Ok(IRAttribute::Code(c))
        } else if name_is(name, "StackMapTable") {
            let ghost frames = w->StackMapTable_0.entries@;
            proof {
                if has {
                    assert(w is StackMapTable);
                    lemma_bytes_at_split(
                        d,
                        r0.pos as int,
                        u16_bytes(frames.len() as u16),
                        frames_bytes(frames),
                    );
                    lemma_u16_at_bytes(d, r0.pos as int, frames.len() as u16);
                }
            }
            let count = read_u16_ir(data)?;
            let ghost r1 = *data;
            let entries = read_frames(
                data,
                count,
                Ghost(
                    if has {
                        Some(frames)
                    } else {
                        None
                    },
                ),
            )?;
            proof {
                lemma_advanced_chain(r0, r1, *data, u16_bytes(count), frames_bytes(entries@));
            }
            Ok(IRAttribute::StackMapTable(StackMapTableAttribute { entries }))
        } else if name_is(name, "Exceptions") || name_is(name, "NestMembers") {
            let ghost list = match w {
                IRAttribute::Exceptions { exception_index_table } => exception_index_table@,
                IRAttribute::NestMembers { classes } => classes@,
                _ => Seq::empty(),
            };
            proof {
                if has {
                    assert(w is Exceptions || w is NestMembers);
                    lemma_bytes_at_split(
                        d,
                        r0.pos as int,
                        u16_bytes(list.len() as u16),
                        classes_bytes(list),
                    );
                    lemma_u16_at_bytes(d, r0.pos as int, list.len() as u16);
                }
            }
            let count = read_u16_ir(data)?;
            let ghost r1 = *data;
            let classes = read_class_refs(
                cp,
                data,
                count,
                Ghost(
                    if has {
                        Some(list)
                    } else {
                        None
                    },
                ),
            )?;
            proof {
                lemma_advanced_chain(r0, r1, *data, u16_bytes(count), classes_bytes(classes@));
            }
            if name_is(name, "Exceptions") {
                Ok(IRAttribute::Exceptions { exception_index_table: classes })
            } else {
                Ok(IRAttribute::NestMembers { classes })
            }
        } else if name_is(name, "InnerClasses") {
            let ghost list = w->InnerClasses_0.classes@;
            proof {
                if has {
                    assert(w is InnerClasses);
                    lemma_bytes_at_split(
                        d,
                        r0.pos as int,
                        u16_bytes(list.len() as u16),
                        inner_classes_bytes(list),
                    );
                    lemma_u16_at_bytes(d, r0.pos as int, list.len() as u16);
                }
            }
            let count = read_u16_ir(data)?;
            let ghost r1 = *data;
            let classes = read_inner_classes(
                cp,
                data,
                count,
                Ghost(
                    if has {
                        Some(list)
                    } else {
                        None
                    },
                ),
            )?;
            proof {
                lemma_advanced_chain(
                    r0,
                    r1,
                    *data,
                    u16_bytes(count),
                    inner_classes_bytes(classes@),
                );
            }
            Ok(IRAttribute::InnerClasses(InnerClassesAttribute { classes }))
        } else if name_is(name, "EnclosingMethod") {
            proof {
                if has {
                    assert(w is EnclosingMethod);
                    let mi: u16 = match w->EnclosingMethod_method {
                        Some(m) => m.index,
                        None => 0,
                    };
                    lemma_bytes_at_split(
                        d,
                        r0.pos as int,
                        u16_bytes(w->EnclosingMethod_class.index),
                        u16_bytes(mi),
                    );
                    lemma_u16_at_bytes(d, r0.pos as int, w->EnclosingMethod_class.index);
                    lemma_u16_at_bytes(d, r0.pos + 2, mi);
                }
            }
            let class_idx = read_u16_ir(data)?;
            let ghost r1 = *data;
            let method_idx = read_u16_ir(data)?;
            proof {
                lemma_advanced_chain(r0, r1, *data, u16_bytes(class_idx), u16_bytes(method_idx));
            }
            let class = CPClassRef::from_cp(cp, class_idx)?;
            let method = if method_idx == 0 {
                None
            } else {
                Some(CPNameAndTypeRef::from_cp(cp, method_idx)?)
            };
            Ok(IRAttribute::EnclosingMethod { class, method })
        } else if name_is(name, "Synthetic") || name_is(name, "Deprecated") {
            proof {
                assert(r0.data@.subrange(r0.pos as int, r0.pos as int) =~= seq![]);
            }
            if name_is(name, "Synthetic") {
                Ok(IRAttribute::Synthetic)
            } else {
                Ok(IRAttribute::Deprecated)
            }
        } else if name_is(name, "Signature") || name_is(name, "SourceFile") {
            proof {
                if has {
                    let u = match w {
                        IRAttribute::Signature(u) => u,
                        IRAttribute::SourceFile(u) => u,
                        _ => w->Signature_0,
                    };
                    assert(w is Signature || w is SourceFile);
                    lemma_u16_at_bytes(d, r0.pos as int, u.index);
                }
            }
            let idx = read_u16_ir(data)?;
            let u = CPUtf8Ref::from_cp(cp, idx)?;
            if name_is(name, "Signature") {
                Ok(IRAttribute::Signature(u))
            } else {
                Ok(IRAttribute::SourceFile(u))
            }
        } else if name_is(name, "LineNumberTable") {
            proof {
                if has {
                    assert(w is LineNumberTable);
                    let entries = w->LineNumberTable_0.line_number_table@;
                    lemma_bytes_at_split(
                        d,
                        r0.pos as int,
                        u16_bytes(entries.len() as u16),
                        line_numbers_bytes(entries),
                    );
                    lemma_u16_at_bytes(d, r0.pos as int, entries.len() as u16);
                    lemma_line_numbers_len(entries);
                }
            }
            let t = LineNumberTableAttribute::new(data)?;
            proof {
                lemma_line_numbers_len(t.line_number_table@);
            }
            Ok(IRAttribute::LineNumberTable(t))
        } else if name_is(name, "NestHost") {
            proof {
                if has {
                    assert(w is NestHost);
                    lemma_u16_at_bytes(d, r0.pos as int, w->NestHost_0.index);
                }
            }
            let idx = read_u16_ir(data)?;
            let c = CPClassRef::from_cp(cp, idx)?;
            Ok(IRAttribute::NestHost(c))
        } else if name_is(name, "MethodParameters") {
            let ghost list = w->MethodParameters_parameters@;
            proof {
                if has {
                    assert(w is MethodParameters);
                    lemma_bytes_at_split(
                        d,
                        r0.pos as int,
                        seq![list.len() as u8],
                        parameters_bytes(list),
                    );
                    assert(d[r0.pos as int] == d.subrange(r0.pos as int, r0.pos + 1)[0]);
                }
            }
            let count = read_u8_ir(data)?;
            let ghost r1 = *data;
            let parameters = read_parameters(
                cp,
                data,
                count,
                Ghost(
                    if has {
                        Some(list)
                    } else {
                        None
                    },
                ),
            )?;
            proof {
                lemma_advanced_chain(r0, r1, *data, seq![count], parameters_bytes(parameters@));
            }
            Ok(IRAttribute::MethodParameters { parameters })
        } else if name_is(name, "RuntimeVisibleAnnotations") || name_is(
            name,
            "RuntimeInvisibleAnnotations",
        ) {
            let ghost list = match w {
                IRAttribute::RuntimeVisibleAnnotations { annotations } => annotations@,
                IRAttribute::RuntimeInvisibleAnnotations { annotations } => annotations@,
                _ => Seq::empty(),
            };
            proof {
                if has {
                    assert(w is RuntimeVisibleAnnotations || w is RuntimeInvisibleAnnotations);
                    lemma_bytes_at_split(
                        d,
                        r0.pos as int,
                        u16_bytes(list.len() as u16),
                        annotations_bytes(list),
                    );
                    lemma_u16_at_bytes(d, r0.pos as int, list.len() as u16);
                }
            }
            let count = read_u16_ir(data)?;
            let ghost r1 = *data;
            let annotations = read_annotations(
                cp,
                data,
                count,
                Ghost(
                    if has {
                        Some(list)
                    } else {
                        None
                    },
                ),
            )?;
            proof {
                lemma_advanced_chain(
                    r0,
                    r1,
                    *data,
                    u16_bytes(count),
                    annotations_bytes(annotations@),
                );
            }
            if name_is(name, "RuntimeVisibleAnnotations") {
                Ok(IRAttribute::RuntimeVisibleAnnotations { annotations })
            } else {
                Ok(IRAttribute::RuntimeInvisibleAnnotations { annotations })
            }
        } else if name_is(name, "RuntimeVisibleParameterAnnotations") || name_is(
            name,
            "RuntimeInvisibleParameterAnnotations",
        ) {
            let ghost list = match w {
                IRAttribute::RuntimeVisibleParameterAnnotations { params } => params@,
                IRAttribute::RuntimeInvisibleParameterAnnotations { params } => params@,
                _ => Seq::empty(),
            };
            proof {
                if has {
                    assert(w is RuntimeVisibleParameterAnnotations
                        || w is RuntimeInvisibleParameterAnnotations);
                }
            }
            let params = read_param_annotations(
                cp,
                data,
                Ghost(
                    if has {
                        Some(list)
                    } else {
                        None
                    },
                ),
            )?;
            if name_is(name, "RuntimeVisibleParameterAnnotations") {
                Ok(IRAttribute::RuntimeVisibleParameterAnnotations { params })
            } else {
                Ok(IRAttribute::RuntimeInvisibleParameterAnnotations { params })
            }
        } else if name_is(name, "AnnotationDefault") || name_is(name, "BootstrapMethods") {
            let rest = data.remaining();
            let bytes = match data.read_n_bytes_vec(rest) {
                Ok(b) => b,
                Err(e) => return Err(IRClassfileError::Bytes(e)),
            };
            if name_is(name, "AnnotationDefault") {
                Ok(IRAttribute::AnnotationDefault(bytes))
            } else {
                Ok(IRAttribute::BootstrapMethods(bytes))
            }
        } else {
            let text: &String = &name.data;
            Err(IRClassfileError::UnknownAttribute(text.clone()))
        }
    }
}


/// Writing back a frame that `new` returned gives exactly the bytes that
/// were read: `new` moved the cursor over the bytes of `f`, and `write`
/// appends the bytes of `f`.
pub proof fn lemma_frame_write_after_read<'a>(
    before: ByteReader<'a>,
    after: ByteReader<'a>,
    f: StackMapFrame,
    written: Seq<u8>,
)
    requires
        f.wf(),
        advanced(before, after, f.spec_bytes()),
        written == seq![] + f.spec_bytes(),
    ensures
        written == before.data@.subrange(before.pos as int, after.pos as int),
{
    assert(seq![] + f.spec_bytes() =~= f.spec_bytes());
}

/// The name of an attribute's kind tells the kind.
proof fn lemma_name_kind(a: IRAttribute)
    ensures
        a.spec_name() == "ConstantValue"@ ==> a is ConstantValue,
        a.spec_name() == "StackMapTable"@ ==> a is StackMapTable,
        a.spec_name() == "Exceptions"@ ==> a is Exceptions,
        a.spec_name() == "EnclosingMethod"@ ==> a is EnclosingMethod,
        a.spec_name() == "Synthetic"@ ==> a is Synthetic,
        a.spec_name() == "Signature"@ ==> a is Signature,
        a.spec_name() == "SourceFile"@ ==> a is SourceFile,
        a.spec_name() == "Deprecated"@ ==> a is Deprecated,
        a.spec_name() == "AnnotationDefault"@ ==> a is AnnotationDefault,
        a.spec_name() == "BootstrapMethods"@ ==> a is BootstrapMethods,
        a.spec_name() == "NestMembers"@ ==> a is NestMembers,
        a.spec_name() == "NestHost"@ ==> a is NestHost,
        a.spec_name() == "LineNumberTable"@ ==> a is LineNumberTable,
        a.spec_name() == "InnerClasses"@ ==> a is InnerClasses,
        a.spec_name() == "MethodParameters"@ ==> a is MethodParameters,
        a.spec_name() == "Code"@ ==> a is Code,
        a.spec_name() == "RuntimeVisibleAnnotations"@ ==> a is RuntimeVisibleAnnotations,
        a.spec_name() == "RuntimeInvisibleAnnotations"@ ==> a is RuntimeInvisibleAnnotations,
        a.spec_name() == "RuntimeVisibleParameterAnnotations"@
            ==> a is RuntimeVisibleParameterAnnotations,
        a.spec_name() == "RuntimeInvisibleParameterAnnotations"@
            ==> a is RuntimeInvisibleParameterAnnotations,
{
    reveal_strlit("ConstantValue");
    reveal_strlit("Code");
    reveal_strlit("StackMapTable");
    reveal_strlit("Exceptions");
    reveal_strlit("InnerClasses");
    reveal_strlit("EnclosingMethod");
    reveal_strlit("Synthetic");
    reveal_strlit("Signature");
    reveal_strlit("SourceFile");
    reveal_strlit("LineNumberTable");
    reveal_strlit("Deprecated");
    reveal_strlit("RuntimeVisibleAnnotations");
    reveal_strlit("RuntimeInvisibleAnnotations");
    reveal_strlit("RuntimeVisibleParameterAnnotations");
    reveal_strlit("RuntimeInvisibleParameterAnnotations");
    reveal_strlit("AnnotationDefault");
    reveal_strlit("BootstrapMethods");
    reveal_strlit("NestMembers");
    reveal_strlit("NestHost");
    reveal_strlit("MethodParameters");
    assert(("ConstantValue"@).len() == 13);
    assert(("Code"@).len() == 4);
    assert(("StackMapTable"@).len() == 13);
    assert(("Exceptions"@).len() == 10);
    assert(("InnerClasses"@).len() == 12);
    assert(("EnclosingMethod"@).len() == 15);
    assert(("Synthetic"@).len() == 9);
    assert(("Signature"@).len() == 9);
    assert(("SourceFile"@).len() == 10);
    assert(("LineNumberTable"@).len() == 15);
    assert(("Deprecated"@).len() == 10);
    assert(("RuntimeVisibleAnnotations"@).len() == 25);
    assert(("RuntimeInvisibleAnnotations"@).len() == 27);
    assert(("RuntimeVisibleParameterAnnotations"@).len() == 34);
    assert(("RuntimeInvisibleParameterAnnotations"@).len() == 36);
    assert(("AnnotationDefault"@).len() == 17);
    assert(("BootstrapMethods"@).len() == 16);
    assert(("NestMembers"@).len() == 11);
    assert(("NestHost"@).len() == 8);
    assert(("MethodParameters"@).len() == 16);
    assert(("ConstantValue"@)[0] != ("StackMapTable"@)[0]);
    assert(("Exceptions"@)[0] != ("SourceFile"@)[0]);
    assert(("EnclosingMethod"@)[0] != ("LineNumberTable"@)[0]);
    assert(("Signature"@)[1] != ("Synthetic"@)[1]);
    assert(("Deprecated"@)[0] != ("Exceptions"@)[0]);
    assert(("Deprecated"@)[0] != ("SourceFile"@)[0]);
    assert(("BootstrapMethods"@)[0] != ("MethodParameters"@)[0]);
}

} // verus!
