use arnold::ai_array::{
    AiArrayAllocate, AiArrayConvert, AiArrayCopy, AiArrayDestroy, AiArrayGetBool, AiArrayGetByte,
    AiArrayGetDataSize, AiArrayGetFlt, AiArrayGetInt, AiArrayGetKeySize, AiArrayGetMtx,
    AiArrayGetNumElements, AiArrayGetNumKeys, AiArrayGetPtr, AiArrayGetRGB, AiArrayGetRGBA,
    AiArrayGetType, AiArrayGetUInt, AiArrayGetVec, AiArrayGetVec2, AiArrayInterpolationSamples,
    AiArrayMap, AiArrayMapKey, AiArrayMapRead, AiArrayMapWrite, AiArrayResize, AiArraySetBool,
    AiArraySetByte, AiArraySetFlt, AiArraySetInt, AiArraySetKey, AiArraySetMtx, AiArraySetPtr,
    AiArraySetRGB, AiArraySetRGBA, AiArraySetUInt, AiArraySetVec, AiArraySetVec2, AiArrayUnmap,
    ArrayError, AtArray,
};
use arnold::ai_types::{
    AI_TYPE_BOOLEAN, AI_TYPE_BYTE, AI_TYPE_FLOAT, AI_TYPE_INT, AI_TYPE_MATRIX, AI_TYPE_NONE,
    AI_TYPE_POINTER, AI_TYPE_RGB, AI_TYPE_RGBA, AI_TYPE_UINT, AI_TYPE_VECTOR, AI_TYPE_VECTOR2,
    AiParamGetTypeSize,
};

fn float_bytes(values: &[f32]) -> Vec<u8> {
    let mut out = Vec::new();
    for v in values {
        out.extend_from_slice(&v.to_le_bytes());
    }
    out
}

fn float_array(nelements: u32, nkeys: u8, values: &[f32]) -> AtArray {
    AiArrayConvert(nelements, nkeys, AI_TYPE_FLOAT, &float_bytes(values)).unwrap()
}

fn read_floats(a: &AtArray, from: u32, to: u32) -> Vec<f32> {
    (from..to).map(|i| f32::from_bits(AiArrayGetFlt(a, i).unwrap())).collect()
}

#[test]
fn allocate_reports_requested_shape() {
    for &(n, k, t) in &[(0u32, 1u8, AI_TYPE_FLOAT), (3, 2, AI_TYPE_RGB), (7, 255, AI_TYPE_BYTE), (1, 1, AI_TYPE_MATRIX)] {
        let a = AiArrayAllocate(n, k, t).unwrap();
        assert_eq!(AiArrayGetNumElements(&a), n);
        assert_eq!(AiArrayGetNumKeys(&a), k);
        assert_eq!(AiArrayGetType(&a), t);
        let size = n as usize * k as usize * AiParamGetTypeSize(t);
        assert_eq!(AiArrayGetDataSize(&a), size);
        assert_eq!(AiArrayGetKeySize(&a), n as usize * AiParamGetTypeSize(t));
        AiArrayDestroy(a);
    }
}

#[test]
fn allocate_rejects_unsizable_shapes() {
    assert_eq!(AiArrayAllocate(3, 0, AI_TYPE_FLOAT).err(), Some(ArrayError::AllocationError));
    assert_eq!(AiArrayAllocate(3, 1, AI_TYPE_NONE).err(), Some(ArrayError::AllocationError));
    assert_eq!(AiArrayAllocate(3, 1, 200).err(), Some(ArrayError::AllocationError));
}

#[test]
fn allocate_zeroes_the_buffer() {
    let a = AiArrayAllocate(2, 2, AI_TYPE_UINT).unwrap();
    for i in 0..4 {
        assert_eq!(AiArrayGetUInt(&a, i), Ok(0));
    }
}

#[test]
fn convert_reads_values_key_after_key() {
    let a = float_array(4, 1, &[10.0, 11.0, 12.0, 13.0]);
    assert_eq!(f32::from_bits(AiArrayGetFlt(&a, 3).unwrap()), 13.0);
    assert_eq!(read_floats(&a, 0, 4), vec![10.0, 11.0, 12.0, 13.0]);
}

#[test]
fn convert_rejects_wrong_buffer_length() {
    let bytes = float_bytes(&[1.0, 2.0, 3.0]);
    assert_eq!(AiArrayConvert(2, 1, AI_TYPE_FLOAT, &bytes).err(), Some(ArrayError::SizeMismatch));
    assert_eq!(AiArrayConvert(4, 1, AI_TYPE_FLOAT, &bytes).err(), Some(ArrayError::SizeMismatch));
    assert_eq!(AiArrayConvert(3, 0, AI_TYPE_FLOAT, &bytes).err(), Some(ArrayError::AllocationError));
}

#[test]
fn copy_is_independent_of_source() {
    let mut a = float_array(3, 1, &[1.0, 1.0, 1.0]);
    let c = AiArrayCopy(&a).unwrap();
    assert_eq!(AiArraySetFlt(&mut a, 0, 9.0f32.to_bits()), Ok(()));
    assert_eq!(read_floats(&c, 0, 3), vec![1.0, 1.0, 1.0]);
    assert_eq!(read_floats(&a, 0, 3), vec![9.0, 1.0, 1.0]);
}

#[test]
fn set_key_overwrites_one_key_only() {
    let mut a = float_array(3, 2, &[1.0, 1.0, 1.0, 2.0, 2.0, 2.0]);
    assert_eq!(AiArraySetKey(&mut a, 1, &float_bytes(&[9.0, 9.0, 9.0])), Ok(()));
    assert_eq!(read_floats(&a, 3, 6), vec![9.0, 9.0, 9.0]);
    assert_eq!(read_floats(&a, 0, 3), vec![1.0, 1.0, 1.0]);
}

#[test]
fn set_key_errors() {
    let mut a = float_array(3, 2, &[1.0, 1.0, 1.0, 2.0, 2.0, 2.0]);
    assert_eq!(AiArraySetKey(&mut a, 2, &float_bytes(&[9.0, 9.0, 9.0])), Err(ArrayError::InvalidKeyIndex));
    assert_eq!(AiArraySetKey(&mut a, 0, &float_bytes(&[9.0, 9.0])), Err(ArrayError::SizeMismatch));
    assert_eq!(read_floats(&a, 0, 6), vec![1.0, 1.0, 1.0, 2.0, 2.0, 2.0]);
}

#[test]
fn float_getter_on_int_array_is_type_mismatch() {
    let mut a = AiArrayAllocate(2, 1, AI_TYPE_INT).unwrap();
    assert_eq!(AiArraySetInt(&mut a, 0, 1065353216), Ok(()));
    assert_eq!(AiArrayGetFlt(&a, 0), Err(ArrayError::TypeMismatch));
    assert_eq!(AiArraySetFlt(&mut a, 0, 1.0f32.to_bits()), Err(ArrayError::TypeMismatch));
    assert_eq!(AiArrayGetInt(&a, 0), Ok(1065353216));
}

#[test]
fn float_getter_past_end_is_out_of_range() {
    let a = float_array(3, 2, &[1.0, 2.0, 3.0, 4.0, 5.0, 6.0]);
    assert_eq!(AiArrayGetFlt(&a, 6), Err(ArrayError::IndexOutOfRange));
    assert_eq!(f32::from_bits(AiArrayGetFlt(&a, 5).unwrap()), 6.0);
}

#[test]
fn scalar_setters_round_trip() {
    let mut b = AiArrayAllocate(2, 1, AI_TYPE_BOOLEAN).unwrap();
    assert_eq!(AiArraySetBool(&mut b, 1, true), Ok(()));
    assert_eq!(AiArrayGetBool(&b, 0), Ok(false));
    assert_eq!(AiArrayGetBool(&b, 1), Ok(true));
    assert_eq!(AiArraySetBool(&mut b, 2, true), Err(ArrayError::IndexOutOfRange));

    let mut y = AiArrayAllocate(1, 2, AI_TYPE_BYTE).unwrap();
    assert_eq!(AiArraySetByte(&mut y, 1, 200), Ok(()));
    assert_eq!(AiArrayGetByte(&y, 1), Ok(200));

    let mut n = AiArrayAllocate(2, 1, AI_TYPE_INT).unwrap();
    assert_eq!(AiArraySetInt(&mut n, 1, -42), Ok(()));
    assert_eq!(AiArrayGetInt(&n, 1), Ok(-42));
    assert_eq!(AiArraySetInt(&mut n, 0, i32::MIN), Ok(()));
    assert_eq!(AiArrayGetInt(&n, 0), Ok(i32::MIN));

    let mut u = AiArrayAllocate(1, 1, AI_TYPE_UINT).unwrap();
    assert_eq!(AiArraySetUInt(&mut u, 0, u32::MAX), Ok(()));
    assert_eq!(AiArrayGetUInt(&u, 0), Ok(u32::MAX));

    let mut p = AiArrayAllocate(2, 1, AI_TYPE_POINTER).unwrap();
    assert_eq!(AiArraySetPtr(&mut p, 1, 0x0123_4567_89ab_cdef), Ok(()));
    assert_eq!(AiArrayGetPtr(&p, 1), Ok(0x0123_4567_89ab_cdef));
    assert_eq!(AiArrayGetPtr(&p, 0), Ok(0));
}

#[test]
fn words_are_stored_little_endian() {
    let mut u = AiArrayAllocate(1, 1, AI_TYPE_UINT).unwrap();
    assert_eq!(AiArraySetUInt(&mut u, 0, 0x0403_0201), Ok(()));
    assert_eq!(AiArrayMap(&mut u), Ok(()));
    assert_eq!(AiArrayMapRead(&u, 0, 4), Ok(vec![1, 2, 3, 4]));
}

#[test]
fn composite_setters_round_trip() {
    let bits = |v: &[f32]| -> Vec<u32> { v.iter().map(|x| x.to_bits()).collect() };

    let mut rgb = AiArrayAllocate(2, 1, AI_TYPE_RGB).unwrap();
    let c = [0.5f32.to_bits(), 0.25f32.to_bits(), 2.0f32.to_bits()];
    assert_eq!(AiArraySetRGB(&mut rgb, 1, c), Ok(()));
    assert_eq!(AiArrayGetRGB(&rgb, 1), Ok(c));
    assert_eq!(AiArrayGetRGB(&rgb, 0), Ok([0, 0, 0]));
    assert_eq!(AiArrayGetRGBA(&rgb, 0), Err(ArrayError::TypeMismatch));

    let mut rgba = AiArrayAllocate(1, 1, AI_TYPE_RGBA).unwrap();
    let c4 = [1, 2, 3, 4];
    assert_eq!(AiArraySetRGBA(&mut rgba, 0, c4), Ok(()));
    assert_eq!(AiArrayGetRGBA(&rgba, 0), Ok(c4));

    let mut v2 = AiArrayAllocate(1, 2, AI_TYPE_VECTOR2).unwrap();
    assert_eq!(AiArraySetVec2(&mut v2, 1, [7, 8]), Ok(()));
    assert_eq!(AiArrayGetVec2(&v2, 1), Ok([7, 8]));

    let mut v3 = AiArrayAllocate(1, 1, AI_TYPE_VECTOR).unwrap();
    let v = bits(&[1.0, -2.0, 3.5]);
    assert_eq!(AiArraySetVec(&mut v3, 0, [v[0], v[1], v[2]]), Ok(()));
    assert_eq!(AiArrayGetVec(&v3, 0), Ok([v[0], v[1], v[2]]));
    assert_eq!(AiArraySetVec(&mut v3, 1, [v[0], v[1], v[2]]), Err(ArrayError::IndexOutOfRange));

    let mut m = AiArrayAllocate(2, 1, AI_TYPE_MATRIX).unwrap();
    let mut mtx = [[0u32; 4]; 4];
    for r in 0..4 {
        for c in 0..4 {
            mtx[r][c] = (r * 4 + c) as u32 + 100;
        }
    }
    assert_eq!(AiArraySetMtx(&mut m, 1, mtx), Ok(()));
    assert_eq!(AiArrayGetMtx(&m, 1), Ok(mtx));
    assert_eq!(AiArrayGetMtx(&m, 0), Ok([[0u32; 4]; 4]));
}

#[test]
fn map_is_exclusive_until_unmapped() {
    let mut a = float_array(2, 2, &[1.0, 2.0, 3.0, 4.0]);
    assert_eq!(AiArrayMap(&mut a), Ok(()));
    assert_eq!(AiArrayMap(&mut a), Err(ArrayError::ConcurrentAccessViolation));
    assert_eq!(AiArrayMapKey(&mut a, 0), Err(ArrayError::ConcurrentAccessViolation));
    AiArrayUnmap(&mut a);
    assert_eq!(AiArrayMap(&mut a), Ok(()));
    AiArrayUnmap(&mut a);
}

#[test]
fn mapped_array_refuses_other_access() {
    let mut a = float_array(2, 2, &[1.0, 2.0, 3.0, 4.0]);
    assert_eq!(AiArrayMapKey(&mut a, 1), Ok(()));
    assert_eq!(AiArrayGetFlt(&a, 0), Err(ArrayError::ConcurrentAccessViolation));
    assert_eq!(AiArraySetFlt(&mut a, 0, 0), Err(ArrayError::ConcurrentAccessViolation));
    assert_eq!(AiArrayCopy(&a).err(), Some(ArrayError::ConcurrentAccessViolation));
    assert_eq!(AiArrayResize(&mut a, 4, 2), Err(ArrayError::ConcurrentAccessViolation));
    assert_eq!(
        AiArraySetKey(&mut a, 0, &float_bytes(&[0.0, 0.0])),
        Err(ArrayError::ConcurrentAccessViolation)
    );
    AiArrayUnmap(&mut a);
    assert_eq!(read_floats(&a, 0, 4), vec![1.0, 2.0, 3.0, 4.0]);
}

#[test]
fn map_key_writes_within_the_key() {
    let mut a = float_array(2, 2, &[1.0, 2.0, 3.0, 4.0]);
    assert_eq!(AiArrayMapKey(&mut a, 2), Err(ArrayError::InvalidKeyIndex));
    assert_eq!(AiArrayMapKey(&mut a, 1), Ok(()));
    assert_eq!(AiArrayMapRead(&a, 0, 8), Ok(float_bytes(&[3.0, 4.0])));
    assert_eq!(AiArrayMapWrite(&mut a, 4, &float_bytes(&[8.0])), Ok(()));
    assert_eq!(AiArrayMapWrite(&mut a, 8, &float_bytes(&[8.0])), Err(ArrayError::IndexOutOfRange));
    assert_eq!(AiArrayMapRead(&a, 4, 5).err(), Some(ArrayError::IndexOutOfRange));
    AiArrayUnmap(&mut a);
    assert_eq!(read_floats(&a, 0, 4), vec![1.0, 2.0, 3.0, 8.0]);
}

#[test]
fn map_whole_buffer_bulk_fill() {
    let mut a = AiArrayAllocate(3, 1, AI_TYPE_FLOAT).unwrap();
    assert_eq!(AiArrayMapWrite(&mut a, 0, &[0]), Err(ArrayError::NotMapped));
    assert_eq!(AiArrayMapRead(&a, 0, 1).err(), Some(ArrayError::NotMapped));
    assert_eq!(AiArrayMap(&mut a), Ok(()));
    assert_eq!(AiArrayMapWrite(&mut a, 0, &float_bytes(&[5.0, 6.0, 7.0])), Ok(()));
    AiArrayUnmap(&mut a);
    assert_eq!(read_floats(&a, 0, 3), vec![5.0, 6.0, 7.0]);
}

#[test]
fn resize_keeps_bytes_and_zero_fills() {
    let mut a = float_array(2, 1, &[1.0, 2.0]);
    assert_eq!(AiArrayResize(&mut a, 2, 2), Ok(()));
    assert_eq!(AiArrayGetNumKeys(&a), 2);
    assert_eq!(AiArrayGetDataSize(&a), 16);
    assert_eq!(read_floats(&a, 0, 4), vec![1.0, 2.0, 0.0, 0.0]);
    assert_eq!(AiArrayResize(&mut a, 1, 1), Ok(()));
    assert_eq!(AiArrayGetNumElements(&a), 1);
    assert_eq!(read_floats(&a, 0, 1), vec![1.0]);
    assert_eq!(AiArrayGetFlt(&a, 1), Err(ArrayError::IndexOutOfRange));
    assert_eq!(AiArrayResize(&mut a, 1, 0), Err(ArrayError::AllocationError));
    assert_eq!(AiArrayGetNumKeys(&a), 1);
}

#[test]
fn interpolation_samples_at_integer_keys() {
    let a = float_array(2, 3, &[1.0, 10.0, 2.0, 20.0, 3.0, 30.0]);
    for k in 0..3u32 {
        let (s0, _) = AiArrayInterpolationSamples(&a, AI_TYPE_FLOAT, k, 1).unwrap();
        assert_eq!(s0, vec![AiArrayGetFlt(&a, k * 2 + 1).unwrap()]);
    }
    let (s0, s1) = AiArrayInterpolationSamples(&a, AI_TYPE_FLOAT, 0, 0).unwrap();
    assert_eq!(s0, vec![1.0f32.to_bits()]);
    assert_eq!(s1, vec![2.0f32.to_bits()]);
    let (s0, s1) = AiArrayInterpolationSamples(&a, AI_TYPE_FLOAT, 2, 0).unwrap();
    assert_eq!(s0, vec![3.0f32.to_bits()]);
    assert_eq!(s1, vec![3.0f32.to_bits()]);
    let (s0, s1) = AiArrayInterpolationSamples(&a, AI_TYPE_FLOAT, 9, 0).unwrap();
    assert_eq!(s0, vec![3.0f32.to_bits()]);
    assert_eq!(s1, vec![3.0f32.to_bits()]);
}

#[test]
fn interpolation_samples_single_key_and_errors() {
    let a = float_array(2, 1, &[4.0, 5.0]);
    let (s0, s1) = AiArrayInterpolationSamples(&a, AI_TYPE_FLOAT, 0, 1).unwrap();
    assert_eq!(s0, vec![5.0f32.to_bits()]);
    assert_eq!(s1, vec![5.0f32.to_bits()]);
    assert_eq!(AiArrayInterpolationSamples(&a, AI_TYPE_FLOAT, 0, 2).err(), Some(ArrayError::IndexOutOfRange));
    assert_eq!(AiArrayInterpolationSamples(&a, AI_TYPE_RGB, 0, 0).err(), Some(ArrayError::TypeMismatch));
    let ints = AiArrayAllocate(2, 1, AI_TYPE_INT).unwrap();
    assert_eq!(AiArrayInterpolationSamples(&ints, AI_TYPE_INT, 0, 0).err(), Some(ArrayError::TypeMismatch));
    let mut m = AiArrayAllocate(1, 2, AI_TYPE_MATRIX).unwrap();
    let (m0, m1) = AiArrayInterpolationSamples(&m, AI_TYPE_MATRIX, 0, 0).unwrap();
    assert_eq!((m0.len(), m1.len()), (16, 16));
    assert_eq!(AiArrayMap(&mut m), Ok(()));
    assert_eq!(AiArrayInterpolationSamples(&m, AI_TYPE_MATRIX, 0, 0).err(), Some(ArrayError::ConcurrentAccessViolation));
}

#[test]
fn type_sizes() {
    assert_eq!(AiParamGetTypeSize(AI_TYPE_BYTE), 1);
    assert_eq!(AiParamGetTypeSize(AI_TYPE_FLOAT), 4);
    assert_eq!(AiParamGetTypeSize(AI_TYPE_RGB), 12);
    assert_eq!(AiParamGetTypeSize(AI_TYPE_RGBA), 16);
    assert_eq!(AiParamGetTypeSize(AI_TYPE_MATRIX), 64);
    assert_eq!(AiParamGetTypeSize(AI_TYPE_NONE), 0);
}
