use quickjs_gc::GC_OBJ_LINK_OFFSET;
use quickjs_gc::JSGCObjectHeader;
use quickjs_gc::JSGCObjectTypeEnum;
use quickjs_gc::ListHead;
use quickjs_gc::get_gc_obj_type_name;
use quickjs_gc::recover_header;

fn header_with_mark(gc_obj_mark: u8) -> JSGCObjectHeader {
    JSGCObjectHeader {
        ref_count: 1,
        gc_obj_mark,
        dummy1: 0,
        dummy2: 0,
        link: ListHead { prev: 0, next: 0 },
    }
}

#[test]
fn type_decoding_is_total_over_all_bytes() {
    for b in 0..=255u8 {
        let tag = header_with_mark(b).gc_obj_type();
        let expected = match b & 0x0F {
            0 => JSGCObjectTypeEnum::JsObject,
            1 => JSGCObjectTypeEnum::FunctionBytecode,
            2 => JSGCObjectTypeEnum::Shape,
            3 => JSGCObjectTypeEnum::VarRef,
            4 => JSGCObjectTypeEnum::AsyncFunction,
            5 => JSGCObjectTypeEnum::JsContext,
            _ => JSGCObjectTypeEnum::Unknown,
        };
        assert_eq!(tag, expected);
    }
}

#[test]
fn unrecognized_nibbles_decode_to_unknown() {
    for nibble in 6..=15u8 {
        assert_eq!(header_with_mark(nibble).gc_obj_type(), JSGCObjectTypeEnum::Unknown);
        assert_eq!(header_with_mark(0xA0 | nibble).gc_obj_type(), JSGCObjectTypeEnum::Unknown);
    }
}

#[test]
fn mark_bits_are_the_high_nibble_for_all_bytes() {
    for b in 0..=255u8 {
        assert_eq!(header_with_mark(b).mark(), (b >> 4) & 0xF);
    }
}

#[test]
fn type_names_match_the_fixed_table() {
    assert_eq!(get_gc_obj_type_name(&JSGCObjectTypeEnum::JsObject), "JS_OBJECT");
    assert_eq!(get_gc_obj_type_name(&JSGCObjectTypeEnum::FunctionBytecode), "FUNCTION_BYTECODE");
    assert_eq!(get_gc_obj_type_name(&JSGCObjectTypeEnum::Shape), "SHAPE");
    assert_eq!(get_gc_obj_type_name(&JSGCObjectTypeEnum::VarRef), "VAR_REF");
    assert_eq!(get_gc_obj_type_name(&JSGCObjectTypeEnum::AsyncFunction), "ASYNC_FUNCTION");
    assert_eq!(get_gc_obj_type_name(&JSGCObjectTypeEnum::JsContext), "JS_CONTEXT");
    assert_eq!(get_gc_obj_type_name(&JSGCObjectTypeEnum::Unknown), "UNKNOWN");
}

#[test]
fn recover_header_undoes_the_link_offset() {
    assert_eq!(GC_OBJ_LINK_OFFSET, 8);
    assert_eq!(recover_header(72), 64);
    assert_eq!(recover_header(8), 0);
    assert_eq!(recover_header(u64::MAX), u64::MAX - 8);
}
