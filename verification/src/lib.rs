//! Leak-detection instrumentation for a native object runtime's garbage
//! collector. The host engine owns the tracked objects and their intrusive
//! circular list of live objects; this library records a backtrace for every
//! object at creation time, walks a model of that live list, and diffs the
//! two to report objects that were recorded as created but are no longer
//! reachable, together with the call stack of their allocation site.
//!
//! The library never owns, frees or mutates a tracked object: it is a pure
//! observer. Object memory is modelled by plain addresses (`u64`), so that
//! every rule below is stated and proved over integers, sequences and maps.

use vstd::prelude::*;

pub mod list;
pub mod live;
pub mod record;
pub mod report;

verus! {

/// Byte offset of the embedded `link` field inside [`JSGCObjectHeader`]:
/// a 4-byte reference count, the 1-byte mark, one reserved byte and a
/// 2-byte reserved field precede it in the host's C layout.
pub const GC_OBJ_LINK_OFFSET: u64 = 8;

/// The type of a garbage-collected object, decoded from the low nibble of
/// the header's mark byte. Any nibble outside the six known values decodes
/// to `Unknown`; decoding is total and never fails.
#[derive(Clone, Copy, PartialEq, Eq, Structural, Debug)]
pub enum JSGCObjectTypeEnum {
    JsObject,
    FunctionBytecode,
    Shape,
    VarRef,
    AsyncFunction,
    JsContext,
    Unknown,
}

/// One node of the host's circular doubly-linked list of live objects.
/// `prev` and `next` hold the addresses of the neighbouring link nodes.
/// The node is embedded inside a [`JSGCObjectHeader`] and owned entirely
/// by the host allocator.
#[derive(Clone, Copy, PartialEq, Eq, Structural, Debug)]
pub struct ListHead {
    pub prev: u64,
    pub next: u64,
}

/// Header of a garbage-collected object: a reference count, a packed byte
/// holding the type tag (low nibble) and the mark bits (high nibble), two
/// reserved fields, and the embedded link node. The address of the header
/// is the object's identity for the lifetime of this subsystem.
#[derive(Clone, Copy, PartialEq, Eq, Structural, Debug)]
pub struct JSGCObjectHeader {
    pub ref_count: i32,
    pub gc_obj_mark: u8,
    pub dummy1: u8,
    pub dummy2: u16,
    pub link: ListHead,
}

/// The payload of a header: every field the tracked object carries apart
/// from its embedded link node.
pub open spec fn header_payload(h: JSGCObjectHeader) -> (i32, u8, u8, u16) {
    (h.ref_count, h.gc_obj_mark, h.dummy1, h.dummy2)
}

/// What the low nibble of a mark byte decodes to: the six known type tags
/// in order, and `Unknown` for every nibble of six or more.
pub open spec fn decode_type_tag(mark_byte: u8) -> JSGCObjectTypeEnum {
    let nibble = mark_byte & 0x0F;
    if nibble == 0 {
        JSGCObjectTypeEnum::JsObject
    } else if nibble == 1 {
        JSGCObjectTypeEnum::FunctionBytecode
    } else if nibble == 2 {
        JSGCObjectTypeEnum::Shape
    } else if nibble == 3 {
        JSGCObjectTypeEnum::VarRef
    } else if nibble == 4 {
        JSGCObjectTypeEnum::AsyncFunction
    } else if nibble == 5 {
        JSGCObjectTypeEnum::JsContext
    } else {
        JSGCObjectTypeEnum::Unknown
    }
}

/// The mark bits packed into the high nibble of a mark byte.
pub open spec fn mark_bits(mark_byte: u8) -> u8 {
    (mark_byte >> 4) & 0xF
}

impl JSGCObjectHeader {
    /// Decodes the object's type tag from the low nibble of the mark byte.
    /// Total: every byte decodes, unrecognized nibbles to `Unknown`.
    pub fn gc_obj_type(&self) -> (tag: JSGCObjectTypeEnum)
        ensures
            tag == decode_type_tag(self.gc_obj_mark),
    {
        match self.gc_obj_mark & 0x0F {
            0 => JSGCObjectTypeEnum::JsObject,
            1 => JSGCObjectTypeEnum::FunctionBytecode,
            2 => JSGCObjectTypeEnum::Shape,
            3 => JSGCObjectTypeEnum::VarRef,
            4 => JSGCObjectTypeEnum::AsyncFunction,
            5 => JSGCObjectTypeEnum::JsContext,
            _ => JSGCObjectTypeEnum::Unknown,
        }
    }

    /// Extracts the collector's mark bits from the high nibble of the mark
    /// byte.
    pub fn mark(&self) -> (m: u8)
        ensures
            m == mark_bits(self.gc_obj_mark),
    {
        let b = self.gc_obj_mark;
        let m = (b & 0xF0) >> 4;
        assert(m == (b >> 4) & 0xF) by (bit_vector)
            requires
                m == (b & 0xF0) >> 4,
        ;
        m
    }
}

/// The fixed display name of each type tag.
pub open spec fn type_tag_name(tag: JSGCObjectTypeEnum) -> Seq<char> {
    match tag {
        JSGCObjectTypeEnum::JsObject => "JS_OBJECT"@,
        JSGCObjectTypeEnum::FunctionBytecode => "FUNCTION_BYTECODE"@,
        JSGCObjectTypeEnum::Shape => "SHAPE"@,
        JSGCObjectTypeEnum::VarRef => "VAR_REF"@,
        JSGCObjectTypeEnum::AsyncFunction => "ASYNC_FUNCTION"@,
        JSGCObjectTypeEnum::JsContext => "JS_CONTEXT"@,
        JSGCObjectTypeEnum::Unknown => "UNKNOWN"@,
    }
}

/// Returns the display name of the given GC object type.
pub fn get_gc_obj_type_name(gc_obj_type: &JSGCObjectTypeEnum) -> (name: String)
    ensures
        name@ == type_tag_name(*gc_obj_type),
{
    match gc_obj_type {
        JSGCObjectTypeEnum::JsObject => String::from_str("JS_OBJECT"),
        JSGCObjectTypeEnum::FunctionBytecode => String::from_str("FUNCTION_BYTECODE"),
        JSGCObjectTypeEnum::Shape => String::from_str("SHAPE"),
        JSGCObjectTypeEnum::VarRef => String::from_str("VAR_REF"),
        JSGCObjectTypeEnum::AsyncFunction => String::from_str("ASYNC_FUNCTION"),
        JSGCObjectTypeEnum::JsContext => String::from_str("JS_CONTEXT"),
        JSGCObjectTypeEnum::Unknown => String::from_str("UNKNOWN"),
    }
}

/// The address of the link node embedded in the header whose identity
/// (header address) is `identity`.
pub open spec fn link_addr_of(identity: u64) -> u64 {
    (identity + GC_OBJ_LINK_OFFSET) as u64
}

/// Recovers the identity (header address) of the object that embeds the
/// link node found at `link_addr`: the link sits at a fixed byte offset
/// inside the header, so the header starts that many bytes earlier.
///
/// The caller must guarantee that `link_addr` really is the address of a
/// link node embedded in a tracked object header laid out as
/// [`JSGCObjectHeader`] declares; the offset arithmetic alone cannot check
/// that.
pub fn recover_header(link_addr: u64) -> (identity: u64)
    requires
        link_addr >= GC_OBJ_LINK_OFFSET,
    ensures
        identity == link_addr - GC_OBJ_LINK_OFFSET,
        link_addr == link_addr_of(identity),
{
    link_addr - GC_OBJ_LINK_OFFSET
}

} // verus!
