//! Reading, lifting and writing of class files for a stack-based virtual
//! machine: a byte-faithful I/O model, a typed constant pool, and decoders for
//! the attribute payloads.
use vstd::prelude::*;

pub mod bytes;
pub mod mutf8;
pub mod io;
pub mod pool;
pub mod attribute;
pub mod classfile;

verus! {

} // verus!
