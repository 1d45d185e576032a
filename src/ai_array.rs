//! The motion-keyed typed array.
//!
//! An array holds `nkeys` motion keys of `nelements` elements each, all of one
//! element type fixed at creation, packed key after key in a flat byte buffer.
//! Typed accessors check the element type and the index; a map session gives
//! exclusive raw access to the buffer, or to one key of it, until it is unmapped.
use vstd::prelude::*;
use crate::ai_types::{
    AI_TYPE_BOOLEAN, AI_TYPE_BYTE, AI_TYPE_FLOAT, AI_TYPE_INT, AI_TYPE_MATRIX, AI_TYPE_POINTER,
    AI_TYPE_RGB, AI_TYPE_RGBA, AI_TYPE_UINT, AI_TYPE_VECTOR, AI_TYPE_VECTOR2, AiParamGetTypeSize,
    is_storable, type_size,
};
use crate::bytes::{
    copy_bytes, encode_words, le_u32, lemma_le_u32_of_bytes, lemma_u64_words, lemma_words_bytes_len, lemma_words_round_trip, u32_bytes,
    read_bytes, read_words, resize_zeroed, splice, words_at, words_bytes, write_bytes, u64_words,
};

verus! {

/// Why an array operation failed.
#[derive(Debug, Clone, Copy, PartialEq, Eq, Structural)]
pub enum ArrayError {
    /// The buffer for the requested shape could not be sized.
    AllocationError,
    /// The accessor's element type is not the array's.
    TypeMismatch,
    /// An element index, or a byte range of a mapped view, lies outside the array.
    IndexOutOfRange,
    /// A motion key index is not below the number of keys.
    InvalidKeyIndex,
    /// The array is mapped: no other access is allowed until it is unmapped.
    ConcurrentAccessViolation,
    /// Raw access was attempted on an array that is not mapped.
    NotMapped,
    /// A caller buffer does not have the exact length the operation needs.
    SizeMismatch,
}

/// Whether a map session is open on an array, and over what.
#[derive(Debug, Clone, Copy, PartialEq, Eq, Structural)]
pub enum MapState {
    Unmapped,
    /// The whole buffer is mapped.
    Whole,
    /// One motion key is mapped.
    Key(u8),
}

/// The mathematical value of an array.
pub struct ArrayModel {
    pub data: Seq<u8>,
    pub nelements: nat,
    pub nkeys: nat,
    pub ty: u8,
    pub map: MapState,
}

/// Bytes needed for `nelements * nkeys` elements of type `t`.
pub open spec fn shape_size(nelements: nat, nkeys: nat, t: u8) -> nat {
    nelements * nkeys * type_size(t)
}

/// Whether no buffer can be made for the shape: no keys, a type that cannot be
/// stored, or a size beyond what memory can address.
pub open spec fn shape_unsizable(nelements: nat, nkeys: nat, t: u8) -> bool {
    nkeys == 0 || !is_storable(t) || shape_size(nelements, nkeys, t) > usize::MAX
}

/// `n` zero bytes.
pub open spec fn zeros(n: nat) -> Seq<u8> {
    Seq::new(n, |k: int| 0u8)
}

/// `s` cut, or extended with zero bytes, to length `n`.
pub open spec fn resized(s: Seq<u8>, n: nat) -> Seq<u8> {
    Seq::new(
        n,
        |k: int|
            if k < s.len() {
                s[k]
            } else {
                0u8
            },
    )
}

/// The sixteen words of a matrix, row after row.
pub open spec fn mtx_words(m: [[u32; 4]; 4]) -> Seq<u32> {
    m@[0]@ + m@[1]@ + m@[2]@ + m@[3]@
}

/// Whether arrays of type `t` can be interpolated over time.
pub open spec fn is_interpolable(t: u8) -> bool {
    t == AI_TYPE_FLOAT || t == AI_TYPE_RGB || t == AI_TYPE_RGBA || t == AI_TYPE_VECTOR || t
        == AI_TYPE_MATRIX
}

/// Number of 32-bit words in one element of an interpolable type `t`.
pub open spec fn interp_words(t: u8) -> nat {
    if t == AI_TYPE_FLOAT {
        1
    } else if t == AI_TYPE_RGBA {
        4
    } else if t == AI_TYPE_MATRIX {
        16
    } else {
        3
    }
}

/// The two keys that a time in key units whose integer part is `key` falls between,
/// for an array of `nkeys` keys: the key itself and the next one, each clamped to
/// the last key.
pub open spec fn bracket_keys(nkeys: nat, key: nat) -> (nat, nat) {
    let k0 = if key < nkeys {
        key
    } else {
        (nkeys - 1) as nat
    };
    let k1 = if k0 + 1 < nkeys {
        k0 + 1
    } else {
        (nkeys - 1) as nat
    };
    (k0, k1)
}

impl ArrayModel {
    /// Elements over all keys.
    pub open spec fn count(self) -> nat {
        self.nelements * self.nkeys
    }

    /// Bytes of one key.
    pub open spec fn key_size(self) -> nat {
        self.nelements * type_size(self.ty)
    }

    pub open spec fn wf(self) -> bool {
        &&& 1 <= self.nkeys <= u8::MAX
        &&& self.nelements <= u32::MAX
        &&& is_storable(self.ty)
        &&& self.data.len() == shape_size(self.nelements, self.nkeys, self.ty)
        &&& self.data.len() <= usize::MAX
        &&& match self.map {
            MapState::Key(k) => k < self.nkeys,
            _ => true,
        }
    }

    pub open spec fn is_mapped(self) -> bool {
        self.map != MapState::Unmapped
    }

    /// The error that an access to element `i` as type `t` meets, if any.
    pub open spec fn access_error(self, t: u8, i: int) -> Option<ArrayError> {
        if self.is_mapped() {
            Some(ArrayError::ConcurrentAccessViolation)
        } else if self.ty != t {
            Some(ArrayError::TypeMismatch)
        } else if i >= self.count() {
            Some(ArrayError::IndexOutOfRange)
        } else {
            None
        }
    }

    /// Word `j` of the buffer.
    pub open spec fn word(self, j: int) -> u32 {
        le_u32(self.data, 4 * j)
    }

    /// The `n` words of element `i`, where each element is `n` words.
    pub open spec fn elem_words(self, i: int, n: nat) -> Seq<u32> {
        words_at(self.data, i * (4 * n), n)
    }

    /// What a getter of type `t` at element `i` returns, `v` being the element.
    pub open spec fn get_outcome<T>(self, t: u8, i: int, v: T) -> Result<T, ArrayError> {
        match self.access_error(t, i) {
            Some(e) => Err(e),
            None => Ok(v),
        }
    }

    /// What a setter of type `t` at element `i` returns.
    pub open spec fn set_outcome(self, t: u8, i: int) -> Result<(), ArrayError> {
        match self.access_error(t, i) {
            Some(e) => Err(e),
            None => Ok(()),
        }
    }

    /// The array after a setter of type `t` at element `i` that writes `b` at
    /// byte offset `o`: unchanged where the access fails.
    pub open spec fn after_set(self, t: u8, i: int, o: int, b: Seq<u8>) -> ArrayModel {
        match self.access_error(t, i) {
            Some(_) => self,
            None => self.with_bytes(o, b),
        }
    }

    /// The handle held by element `i` of a pointer array: two words, low first.
    pub open spec fn handle(self, i: int) -> u64 {
        let w = self.elem_words(i, 2);
        (w[0] as u64) | ((w[1] as u64) << 32)
    }

    /// The error that writing a key of `len` bytes at key `key` meets, if any.
    pub open spec fn set_key_error(self, key: int, len: nat) -> Option<ArrayError> {
        if self.is_mapped() {
            Some(ArrayError::ConcurrentAccessViolation)
        } else if key >= self.nkeys {
            Some(ArrayError::InvalidKeyIndex)
        } else if len != self.key_size() {
            Some(ArrayError::SizeMismatch)
        } else {
            None
        }
    }

    /// The bytes of key `key`.
    pub open spec fn key_bytes(self, key: int) -> Seq<u8> {
        self.data.subrange(key * self.key_size(), (key + 1) * self.key_size())
    }

    /// What mapping the whole buffer returns.
    pub open spec fn map_outcome(self) -> Result<(), ArrayError> {
        if self.is_mapped() {
            Err(ArrayError::ConcurrentAccessViolation)
        } else {
            Ok(())
        }
    }

    /// The array after mapping the whole buffer.
    pub open spec fn after_map(self) -> ArrayModel {
        if self.is_mapped() {
            self
        } else {
            ArrayModel { map: MapState::Whole, ..self }
        }
    }

    /// What mapping key `key` returns.
    pub open spec fn map_key_outcome(self, key: int) -> Result<(), ArrayError> {
        if self.is_mapped() {
            Err(ArrayError::ConcurrentAccessViolation)
        } else if key >= self.nkeys {
            Err(ArrayError::InvalidKeyIndex)
        } else {
            Ok(())
        }
    }

    /// The array after mapping key `key`.
    pub open spec fn after_map_key(self, key: u8) -> ArrayModel {
        if self.map_key_outcome(key as int) is Ok {
            ArrayModel { map: MapState::Key(key), ..self }
        } else {
            self
        }
    }

    /// The array after its map session ends.
    pub open spec fn after_unmap(self) -> ArrayModel {
        ArrayModel { map: MapState::Unmapped, ..self }
    }

    /// The error that raw access to `len` bytes at offset `o` of the mapped region meets, if any.
    pub open spec fn mapped_error(self, o: int, len: int) -> Option<ArrayError> {
        if !self.is_mapped() {
            Some(ArrayError::NotMapped)
        } else if o + len > self.mapped_region().1 {
            Some(ArrayError::IndexOutOfRange)
        } else {
            None
        }
    }

    /// The error that interpolating element `idx` as type `t` meets, if any.
    pub open spec fn interp_error(self, t: u8, idx: int) -> Option<ArrayError> {
        if self.is_mapped() {
            Some(ArrayError::ConcurrentAccessViolation)
        } else if !is_interpolable(t) || self.ty != t {
            Some(ArrayError::TypeMismatch)
        } else if idx >= self.nelements {
            Some(ArrayError::IndexOutOfRange)
        } else {
            None
        }
    }

    /// The flat indices of element `idx` in the two keys bracketing key position `key`.
    pub open spec fn interp_samples(self, key: nat, idx: nat) -> (nat, nat) {
        let (k0, k1) = bracket_keys(self.nkeys, key);
        (k0 * self.nelements + idx, k1 * self.nelements + idx)
    }

    /// The same array with the bytes from offset `o` on replaced by `b`.
    pub open spec fn with_bytes(self, o: int, b: Seq<u8>) -> ArrayModel {
        ArrayModel { data: splice(self.data, o, b), ..self }
    }

    /// The byte offset and length of the mapped region.
    pub open spec fn mapped_region(self) -> (int, int) {
        match self.map {
            MapState::Key(k) => (k * self.key_size(), self.key_size() as int),
            _ => (0, self.data.len() as int),
        }
    }
}

/// A motion-keyed array of elements of one type over a byte buffer it owns.
pub struct AtArray {
    data: Vec<u8>,
    nelements: u32,
    nkeys: u8,
    ty: u8,
    map: MapState,
}

impl View for AtArray {
    type V = ArrayModel;

    closed spec fn view(&self) -> ArrayModel {
        ArrayModel {
            data: self.data@,
            nelements: self.nelements as nat,
            nkeys: self.nkeys as nat,
            ty: self.ty,
            map: self.map,
        }
    }
}

proof fn lemma_elem_bounds(i: nat, count: nat, sz: nat)
    requires
        i < count,
    ensures
        i * sz + sz <= count * sz,
{
    assert(i * sz + sz <= count * sz) by (nonlinear_arith)
        requires
            i < count,
    ;
}

proof fn lemma_word_elem(m: ArrayModel, i: int)
    ensures
        m.elem_words(i, 1)[0] == m.word(i),
{
    assert(i * (4 * 1nat) == 4 * i) by (nonlinear_arith);
}

proof fn lemma_count_fits(m: ArrayModel)
    requires
        m.wf(),
    ensures
        m.count() <= m.data.len(),
        m.key_size() <= m.data.len(),
        m.key_size() * m.nkeys == m.data.len(),
{
    let sz = type_size(m.ty);
    assert(m.nelements * m.nkeys <= m.nelements * m.nkeys * sz) by (nonlinear_arith)
        requires
            sz >= 1,
    ;
    assert(m.nelements * sz <= m.nelements * m.nkeys * sz) by (nonlinear_arith)
        requires
            m.nkeys >= 1,
    ;
    assert(m.nelements * sz * m.nkeys == m.nelements * m.nkeys * sz) by (nonlinear_arith);
}

/// Size in bytes of the shape, or `None` where the product does not fit in `usize`.
fn checked_shape_size(nelements: u32, nkeys: u8, t: u8) -> (r: Option<usize>)
    ensures
        match r {
            Some(n) => n == shape_size(nelements as nat, nkeys as nat, t),
            None => shape_size(nelements as nat, nkeys as nat, t) > usize::MAX,
        },
{
    let sz = AiParamGetTypeSize(t);
    if sz == 0 {
        assert(shape_size(nelements as nat, nkeys as nat, t) == 0) by (nonlinear_arith)
            requires
                type_size(t) == 0,
        ;
        return Some(0);
    }
    match (nelements as usize).checked_mul(nkeys as usize) {
        Some(count) => count.checked_mul(sz),
        None => {
            assert(nelements as nat * nkeys as nat * sz as nat >= nelements as nat * nkeys as nat)
                by (nonlinear_arith)
                requires
                    sz >= 1,
            ;
            None
        },
    }
}

/// Creates an array of `nelements` elements per key and `nkeys` keys of type
/// `type_`, its bytes all zero. Fails with `AllocationError` where the shape
/// cannot be sized.
pub fn AiArrayAllocate(nelements: u32, nkeys: u8, type_: u8) -> (r: Result<AtArray, ArrayError>)
    ensures
        match r {
            Ok(a) => {
                &&& !shape_unsizable(nelements as nat, nkeys as nat, type_)
                &&& a@.wf()
                &&& a@ == ArrayModel {
                    data: zeros(shape_size(nelements as nat, nkeys as nat, type_)),
                    nelements: nelements as nat,
                    nkeys: nkeys as nat,
                    ty: type_,
                    map: MapState::Unmapped,
                }
            },
            Err(e) => shape_unsizable(nelements as nat, nkeys as nat, type_) && e
                == ArrayError::AllocationError,
        },
{
    if nkeys == 0 || AiParamGetTypeSize(type_) == 0 {
        return Err(ArrayError::AllocationError);
    }
    match checked_shape_size(nelements, nkeys, type_) {
        None => Err(ArrayError::AllocationError),
        Some(n) => {
            let mut data: Vec<u8> = Vec::new();
            resize_zeroed(&mut data, n);
            assert(data@ =~= zeros(n as nat));
            Ok(AtArray { data, nelements, nkeys, ty: type_, map: MapState::Unmapped })
        },
    }
}

/// Creates an array of the given shape and type holding a copy of `data`, which
/// packs the `nelements * nkeys` elements key after key. Fails with
/// `AllocationError` where the shape cannot be sized, and with `SizeMismatch`
/// where `data` is not exactly the size of the shape.
pub fn AiArrayConvert(nelements: u32, nkeys: u8, type_: u8, data: &[u8]) -> (r: Result<
    AtArray,
    ArrayError,
>)
    ensures
        match r {
            Ok(a) => {
                &&& !shape_unsizable(nelements as nat, nkeys as nat, type_)
                &&& data@.len() == shape_size(nelements as nat, nkeys as nat, type_)
                &&& a@.wf()
                &&& a@ == ArrayModel {
                    data: data@,
                    nelements: nelements as nat,
                    nkeys: nkeys as nat,
                    ty: type_,
                    map: MapState::Unmapped,
                }
            },
            Err(e) => if shape_unsizable(nelements as nat, nkeys as nat, type_) {
                e == ArrayError::AllocationError
            } else {
                e == ArrayError::SizeMismatch && data@.len() != shape_size(
                    nelements as nat,
                    nkeys as nat,
                    type_,
                )
            },
        },
{
    if nkeys == 0 || AiParamGetTypeSize(type_) == 0 {
        return Err(ArrayError::AllocationError);
    }
    match checked_shape_size(nelements, nkeys, type_) {
        None => Err(ArrayError::AllocationError),
        Some(n) => {
            if data.len() != n {
                return Err(ArrayError::SizeMismatch);
            }
            let bytes = copy_bytes(data);
            Ok(AtArray { data: bytes, nelements, nkeys, ty: type_, map: MapState::Unmapped })
        },
    }
}

/// Releases the array and its buffer.
pub fn AiArrayDestroy(array: AtArray) {
}

/// Changes the shape in place. The bytes of the buffer keep their offsets: those
/// below the new size are kept, the rest dropped, and new bytes are zero. Fails,
/// changing nothing, with `ConcurrentAccessViolation` while the array is mapped
/// and with `AllocationError` where the new shape cannot be sized.
pub fn AiArrayResize(array: &mut AtArray, nelements: u32, nkeys: u8) -> (r: Result<(), ArrayError>)
    requires
        old(array)@.wf(),
    ensures
        final(array)@.wf(),
        match r {
            Ok(_) => {
                &&& !old(array)@.is_mapped()
                &&& !shape_unsizable(nelements as nat, nkeys as nat, old(array)@.ty)
                &&& final(array)@ == ArrayModel {
                    data: resized(
                        old(array)@.data,
                        shape_size(nelements as nat, nkeys as nat, old(array)@.ty),
                    ),
                    nelements: nelements as nat,
                    nkeys: nkeys as nat,
                    ..old(array)@
                }
            },
            Err(e) => {
                &&& final(array)@ == old(array)@
                &&& if old(array)@.is_mapped() {
                    e == ArrayError::ConcurrentAccessViolation
                } else {
                    e == ArrayError::AllocationError && shape_unsizable(
                        nelements as nat,
                        nkeys as nat,
                        old(array)@.ty,
                    )
                }
            },
        },
{
    if !(array.map == MapState::Unmapped) {
        return Err(ArrayError::ConcurrentAccessViolation);
    }
    if nkeys == 0 {
        return Err(ArrayError::AllocationError);
    }
    match checked_shape_size(nelements, nkeys, array.ty) {
        None => Err(ArrayError::AllocationError),
        Some(n) => {
            resize_zeroed(&mut array.data, n);
            array.nelements = nelements;
            array.nkeys = nkeys;
            Ok(())
        },
    }
}

/// A copy of the array with a buffer of its own. Fails with
/// `ConcurrentAccessViolation` while the array is mapped.
pub fn AiArrayCopy(array: &AtArray) -> (r: Result<AtArray, ArrayError>)
    requires
        array@.wf(),
    ensures
        match r {
            Ok(c) => !array@.is_mapped() && c@ == array@ && c@.wf(),
            Err(e) => array@.is_mapped() && e == ArrayError::ConcurrentAccessViolation,
        },
{
    if !(array.map == MapState::Unmapped) {
        return Err(ArrayError::ConcurrentAccessViolation);
    }
    let data = copy_bytes(array.data.as_slice());
    Ok(AtArray {
        data,
        nelements: array.nelements,
        nkeys: array.nkeys,
        ty: array.ty,
        map: MapState::Unmapped,
    })
}

/// Number of elements in each key.
pub fn AiArrayGetNumElements(array: &AtArray) -> (r: u32)
    ensures
        r == array@.nelements,
{
    array.nelements
}

/// Number of motion keys.
pub fn AiArrayGetNumKeys(array: &AtArray) -> (r: u8)
    ensures
        r == array@.nkeys,
{
    array.nkeys
}

/// Element type.
pub fn AiArrayGetType(array: &AtArray) -> (r: u8)
    ensures
        r == array@.ty,
{
    array.ty
}

/// Size in bytes of the whole buffer.
pub fn AiArrayGetDataSize(array: &AtArray) -> (r: usize)
    ensures
        r == array@.data.len(),
{
    array.data.len()
}

/// Size in bytes of one key.
pub fn AiArrayGetKeySize(array: &AtArray) -> (r: usize)
    requires
        array@.wf(),
    ensures
        r == array@.key_size(),
{
    proof {
        lemma_count_fits(array@);
    }
    array.nelements as usize * AiParamGetTypeSize(array.ty)
}

fn access_check(array: &AtArray, t: u8, i: u32) -> (r: Option<ArrayError>)
    requires
        array@.wf(),
    ensures
        r == array@.access_error(t, i as int),
{
    proof {
        lemma_count_fits(array@);
    }
    if !(array.map == MapState::Unmapped) {
        Some(ArrayError::ConcurrentAccessViolation)
    } else if array.ty != t {
        Some(ArrayError::TypeMismatch)
    } else if i as usize >= array.nelements as usize * array.nkeys as usize {
        Some(ArrayError::IndexOutOfRange)
    } else {
        None
    }
}

/// The `n` words of element `i` of an array of type `t`, whose elements are `n` words each.
fn get_elem_words(array: &AtArray, t: u8, i: u32, n: usize) -> (r: Result<Vec<u32>, ArrayError>)
    requires
        array@.wf(),
        type_size(t) == 4 * n,
    ensures
        match r {
            Ok(v) => array@.access_error(t, i as int) is None && v@ == array@.elem_words(
                i as int,
                n as nat,
            ),
            Err(e) => array@.access_error(t, i as int) == Some(e),
        },
{
    match access_check(array, t, i) {
        Some(e) => Err(e),
        None => {
            proof {
                lemma_elem_bounds(i as nat, array@.count(), 4 * n as nat);
            }
            Ok(read_words(&array.data, i as usize * (4 * n), n))
        },
    }
}

/// Writes the words `ws` as element `i` of an array of type `t`, whose elements are
/// `ws.len()` words each.
fn set_elem_words(array: &mut AtArray, t: u8, i: u32, ws: &[u32]) -> (r: Result<(), ArrayError>)
    requires
        old(array)@.wf(),
        type_size(t) == 4 * ws@.len(),
    ensures
        final(array)@.wf(),
        r == old(array)@.set_outcome(t, i as int),
        final(array)@ == old(array)@.after_set(
            t,
            i as int,
            i * (4 * ws@.len()),
            words_bytes(ws@),
        ),
{
    match access_check(array, t, i) {
        Some(e) => Err(e),
        None => {
            proof {
                lemma_elem_bounds(i as nat, array@.count(), 4 * ws@.len());
                lemma_words_bytes_len(ws@);
            }
            let b = encode_words(ws);
            write_bytes(&mut array.data, i as usize * (4 * ws.len()), b.as_slice());
            Ok(())
        },
    }
}

/// Element `i` of a boolean array.
pub fn AiArrayGetBool(array: &AtArray, i: u32) -> (r: Result<bool, ArrayError>)
    requires
        array@.wf(),
    ensures
        r == array@.get_outcome(AI_TYPE_BOOLEAN, i as int, array@.data[i as int] != 0),
{
    match access_check(array, AI_TYPE_BOOLEAN, i) {
        Some(e) => Err(e),
        None => {
            proof {
                lemma_count_fits(array@);
            }
            Ok(array.data[i as usize] != 0)
        },
    }
}

/// Element `i` of a byte array.
pub fn AiArrayGetByte(array: &AtArray, i: u32) -> (r: Result<u8, ArrayError>)
    requires
        array@.wf(),
    ensures
        r == array@.get_outcome(AI_TYPE_BYTE, i as int, array@.data[i as int]),
{
    match access_check(array, AI_TYPE_BYTE, i) {
        Some(e) => Err(e),
        None => {
            proof {
                lemma_count_fits(array@);
            }
            Ok(array.data[i as usize])
        },
    }
}

/// Element `i` of a signed-integer array.
pub fn AiArrayGetInt(array: &AtArray, i: u32) -> (r: Result<i32, ArrayError>)
    requires
        array@.wf(),
    ensures
        r == array@.get_outcome(AI_TYPE_INT, i as int, array@.word(i as int) as i32),
{
    match get_elem_words(array, AI_TYPE_INT, i, 1) {
        Ok(v) => {
            proof {
                lemma_word_elem(array@, i as int);
            }
            Ok(#[verifier::truncate] (v[0] as i32))
        },
        Err(e) => Err(e),
    }
}

/// Element `i` of an unsigned-integer array.
pub fn AiArrayGetUInt(array: &AtArray, i: u32) -> (r: Result<u32, ArrayError>)
    requires
        array@.wf(),
    ensures
        r == array@.get_outcome(AI_TYPE_UINT, i as int, array@.word(i as int)),
{
    match get_elem_words(array, AI_TYPE_UINT, i, 1) {
        Ok(v) => {
            proof {
                lemma_word_elem(array@, i as int);
            }
            Ok(v[0])
        },
        Err(e) => Err(e),
    }
}

/// Element `i` of a float array, as its IEEE-754 single-precision bit pattern.
pub fn AiArrayGetFlt(array: &AtArray, i: u32) -> (r: Result<u32, ArrayError>)
    requires
        array@.wf(),
    ensures
        r == array@.get_outcome(AI_TYPE_FLOAT, i as int, array@.word(i as int)),
{
    match get_elem_words(array, AI_TYPE_FLOAT, i, 1) {
        Ok(v) => {
            proof {
                lemma_word_elem(array@, i as int);
            }
            Ok(v[0])
        },
        Err(e) => Err(e),
    }
}

/// Element `i` of an RGB array: the bit patterns of red, green and blue.
pub fn AiArrayGetRGB(array: &AtArray, i: u32) -> (r: Result<[u32; 3], ArrayError>)
    requires
        array@.wf(),
    ensures
        match r {
            Ok(v) => array@.access_error(AI_TYPE_RGB, i as int) is None && v@ == array@.elem_words(
                i as int,
                3,
            ),
            Err(e) => array@.access_error(AI_TYPE_RGB, i as int) == Some(e),
        },
{
    match get_elem_words(array, AI_TYPE_RGB, i, 3) {
        Ok(v) => {
            let c = [v[0], v[1], v[2]];
            assert(c@ =~= v@);
            Ok(c)
        },
        Err(e) => Err(e),
    }
}

/// Element `i` of an RGBA array: the bit patterns of red, green, blue and alpha.
pub fn AiArrayGetRGBA(array: &AtArray, i: u32) -> (r: Result<[u32; 4], ArrayError>)
    requires
        array@.wf(),
    ensures
        match r {
            Ok(v) => array@.access_error(AI_TYPE_RGBA, i as int) is None && v@ == array@.elem_words(
                i as int,
                4,
            ),
            Err(e) => array@.access_error(AI_TYPE_RGBA, i as int) == Some(e),
        },
{
    match get_elem_words(array, AI_TYPE_RGBA, i, 4) {
        Ok(v) => {
            let c = [v[0], v[1], v[2], v[3]];
            assert(c@ =~= v@);
            Ok(c)
        },
        Err(e) => Err(e),
    }
}

/// Element `i` of a 2D vector array: the bit patterns of x and y.
pub fn AiArrayGetVec2(array: &AtArray, i: u32) -> (r: Result<[u32; 2], ArrayError>)
    requires
        array@.wf(),
    ensures
        match r {
            Ok(v) => array@.access_error(AI_TYPE_VECTOR2, i as int) is None && v@ == array@.elem_words(
                i as int,
                2,
            ),
            Err(e) => array@.access_error(AI_TYPE_VECTOR2, i as int) == Some(e),
        },
{
    match get_elem_words(array, AI_TYPE_VECTOR2, i, 2) {
        Ok(v) => {
            let c = [v[0], v[1]];
            assert(c@ =~= v@);
            Ok(c)
        },
        Err(e) => Err(e),
    }
}

/// Element `i` of a 3D vector array: the bit patterns of x, y and z.
pub fn AiArrayGetVec(array: &AtArray, i: u32) -> (r: Result<[u32; 3], ArrayError>)
    requires
        array@.wf(),
    ensures
        match r {
            Ok(v) => array@.access_error(AI_TYPE_VECTOR, i as int) is None && v@ == array@.elem_words(
                i as int,
                3,
            ),
            Err(e) => array@.access_error(AI_TYPE_VECTOR, i as int) == Some(e),
        },
{
    match get_elem_words(array, AI_TYPE_VECTOR, i, 3) {
        Ok(v) => {
            let c = [v[0], v[1], v[2]];
            assert(c@ =~= v@);
            Ok(c)
        },
        Err(e) => Err(e),
    }
}

/// Element `i` of a matrix array: the bit patterns of its entries, row by row.
pub fn AiArrayGetMtx(array: &AtArray, i: u32) -> (r: Result<[[u32; 4]; 4], ArrayError>)
    requires
        array@.wf(),
    ensures
        match r {
            Ok(m) => array@.access_error(AI_TYPE_MATRIX, i as int) is None && mtx_words(m)
                == array@.elem_words(i as int, 16),
            Err(e) => array@.access_error(AI_TYPE_MATRIX, i as int) == Some(e),
        },
{
    match get_elem_words(array, AI_TYPE_MATRIX, i, 16) {
        Ok(v) => {
            let m = [
                [v[0], v[1], v[2], v[3]],
                [v[4], v[5], v[6], v[7]],
                [v[8], v[9], v[10], v[11]],
                [v[12], v[13], v[14], v[15]],
            ];
            assert(mtx_words(m) =~= v@);
            Ok(m)
        },
        Err(e) => Err(e),
    }
}

/// Element `i` of a pointer array: the opaque handle it holds.
pub fn AiArrayGetPtr(array: &AtArray, i: u32) -> (r: Result<u64, ArrayError>)
    requires
        array@.wf(),
    ensures
        r == array@.get_outcome(AI_TYPE_POINTER, i as int, array@.handle(i as int)),
{
    match get_elem_words(array, AI_TYPE_POINTER, i, 2) {
        Ok(v) => Ok((v[0] as u64) | ((v[1] as u64) << 32)),
        Err(e) => Err(e),
    }
}

/// Writes the single byte `b` as element `i` of an array of type `t`.
fn set_elem_byte(array: &mut AtArray, t: u8, i: u32, b: u8) -> (r: Result<(), ArrayError>)
    requires
        old(array)@.wf(),
        type_size(t) == 1,
    ensures
        final(array)@.wf(),
        r == old(array)@.set_outcome(t, i as int),
        final(array)@ == old(array)@.after_set(t, i as int, i as int, seq![b]),
{
    match access_check(array, t, i) {
        Some(e) => Err(e),
        None => {
            proof {
                lemma_count_fits(array@);
            }
            let ghost before = array@;
            array.data[i as usize] = b;
            assert(array.data@ =~= splice(before.data, i as int, seq![b]));
            Ok(())
        },
    }
}

/// Sets element `i` of a boolean array, stored as one byte, 1 for true and 0 for false.
pub fn AiArraySetBool(array: &mut AtArray, i: u32, val: bool) -> (r: Result<(), ArrayError>)
    requires
        old(array)@.wf(),
    ensures
        final(array)@.wf(),
        r == old(array)@.set_outcome(AI_TYPE_BOOLEAN, i as int),
        final(array)@ == old(array)@.after_set(
            AI_TYPE_BOOLEAN,
            i as int,
            i as int,
            seq![if val { 1u8 } else { 0u8 }],
        ),
{
    set_elem_byte(array, AI_TYPE_BOOLEAN, i, if val { 1u8 } else { 0u8 })
}

/// Sets element `i` of a byte array.
pub fn AiArraySetByte(array: &mut AtArray, i: u32, val: u8) -> (r: Result<(), ArrayError>)
    requires
        old(array)@.wf(),
    ensures
        final(array)@.wf(),
        r == old(array)@.set_outcome(AI_TYPE_BYTE, i as int),
        final(array)@ == old(array)@.after_set(AI_TYPE_BYTE, i as int, i as int, seq![val]),
{
    set_elem_byte(array, AI_TYPE_BYTE, i, val)
}

/// Sets element `i` of a signed-integer array, stored as its two's-complement word.
pub fn AiArraySetInt(array: &mut AtArray, i: u32, val: i32) -> (r: Result<(), ArrayError>)
    requires
        old(array)@.wf(),
    ensures
        final(array)@.wf(),
        r == old(array)@.set_outcome(AI_TYPE_INT, i as int),
        final(array)@ == old(array)@.after_set(
            AI_TYPE_INT,
            i as int,
            i * 4,
            words_bytes(seq![val as u32]),
        ),
{
    let ws = [#[verifier::truncate] (val as u32)];
    proof {
        assert(i * (4 * 1nat) == i * 4) by (nonlinear_arith);
        assert(ws@ =~= seq![val as u32]);
    }
    set_elem_words(array, AI_TYPE_INT, i, ws.as_slice())
}

/// Sets element `i` of an unsigned-integer array.
pub fn AiArraySetUInt(array: &mut AtArray, i: u32, val: u32) -> (r: Result<(), ArrayError>)
    requires
        old(array)@.wf(),
    ensures
        final(array)@.wf(),
        r == old(array)@.set_outcome(AI_TYPE_UINT, i as int),
        final(array)@ == old(array)@.after_set(
            AI_TYPE_UINT,
            i as int,
            i * 4,
            words_bytes(seq![val]),
        ),
{
    let ws = [val];
    proof {
        assert(i * (4 * 1nat) == i * 4) by (nonlinear_arith);
        assert(ws@ =~= seq![val]);
    }
    set_elem_words(array, AI_TYPE_UINT, i, ws.as_slice())
}

/// Sets element `i` of a float array from its IEEE-754 single-precision bit pattern.
pub fn AiArraySetFlt(array: &mut AtArray, i: u32, val: u32) -> (r: Result<(), ArrayError>)
    requires
        old(array)@.wf(),
    ensures
        final(array)@.wf(),
        r == old(array)@.set_outcome(AI_TYPE_FLOAT, i as int),
        final(array)@ == old(array)@.after_set(
            AI_TYPE_FLOAT,
            i as int,
            i * 4,
            words_bytes(seq![val]),
        ),
{
    let ws = [val];
    proof {
        assert(i * (4 * 1nat) == i * 4) by (nonlinear_arith);
        assert(ws@ =~= seq![val]);
    }
    set_elem_words(array, AI_TYPE_FLOAT, i, ws.as_slice())
}

/// Sets element `i` of an RGB array from the bit patterns of red, green and blue.
pub fn AiArraySetRGB(array: &mut AtArray, i: u32, val: [u32; 3]) -> (r: Result<(), ArrayError>)
    requires
        old(array)@.wf(),
    ensures
        final(array)@.wf(),
        r == old(array)@.set_outcome(AI_TYPE_RGB, i as int),
        final(array)@ == old(array)@.after_set(AI_TYPE_RGB, i as int, i * 12, words_bytes(val@)),
{
    proof {
        assert(i * (4 * 3nat) == i * 12) by (nonlinear_arith);
    }
    set_elem_words(array, AI_TYPE_RGB, i, val.as_slice())
}

/// Sets element `i` of an RGBA array from the bit patterns of red, green, blue and alpha.
pub fn AiArraySetRGBA(array: &mut AtArray, i: u32, val: [u32; 4]) -> (r: Result<(), ArrayError>)
    requires
        old(array)@.wf(),
    ensures
        final(array)@.wf(),
        r == old(array)@.set_outcome(AI_TYPE_RGBA, i as int),
        final(array)@ == old(array)@.after_set(AI_TYPE_RGBA, i as int, i * 16, words_bytes(val@)),
{
    proof {
        assert(i * (4 * 4nat) == i * 16) by (nonlinear_arith);
    }
    set_elem_words(array, AI_TYPE_RGBA, i, val.as_slice())
}

/// Sets element `i` of a 2D vector array from the bit patterns of x and y.
pub fn AiArraySetVec2(array: &mut AtArray, i: u32, val: [u32; 2]) -> (r: Result<(), ArrayError>)
    requires
        old(array)@.wf(),
    ensures
        final(array)@.wf(),
        r == old(array)@.set_outcome(AI_TYPE_VECTOR2, i as int),
        final(array)@ == old(array)@.after_set(AI_TYPE_VECTOR2, i as int, i * 8, words_bytes(val@)),
{
    proof {
        assert(i * (4 * 2nat) == i * 8) by (nonlinear_arith);
    }
    set_elem_words(array, AI_TYPE_VECTOR2, i, val.as_slice())
}

/// Sets element `i` of a 3D vector array from the bit patterns of x, y and z.
pub fn AiArraySetVec(array: &mut AtArray, i: u32, val: [u32; 3]) -> (r: Result<(), ArrayError>)
    requires
        old(array)@.wf(),
    ensures
        final(array)@.wf(),
        r == old(array)@.set_outcome(AI_TYPE_VECTOR, i as int),
        final(array)@ == old(array)@.after_set(AI_TYPE_VECTOR, i as int, i * 12, words_bytes(val@)),
{
    proof {
        assert(i * (4 * 3nat) == i * 12) by (nonlinear_arith);
    }
    set_elem_words(array, AI_TYPE_VECTOR, i, val.as_slice())
}

/// Sets element `i` of a matrix array from the bit patterns of its entries, row by row.
pub fn AiArraySetMtx(array: &mut AtArray, i: u32, val: [[u32; 4]; 4]) -> (r: Result<(), ArrayError>)
    requires
        old(array)@.wf(),
    ensures
        final(array)@.wf(),
        r == old(array)@.set_outcome(AI_TYPE_MATRIX, i as int),
        final(array)@ == old(array)@.after_set(
            AI_TYPE_MATRIX,
            i as int,
            i * 64,
            words_bytes(mtx_words(val)),
        ),
{
    let ws = [
        val[0][0], val[0][1], val[0][2], val[0][3],
        val[1][0], val[1][1], val[1][2], val[1][3],
        val[2][0], val[2][1], val[2][2], val[2][3],
        val[3][0], val[3][1], val[3][2], val[3][3],
    ];
    proof {
        assert(i * (4 * 16nat) == i * 64) by (nonlinear_arith);
        assert(ws@ =~= mtx_words(val));
    }
    set_elem_words(array, AI_TYPE_MATRIX, i, ws.as_slice())
}

/// Sets element `i` of a pointer array to the opaque handle `val`.
pub fn AiArraySetPtr(array: &mut AtArray, i: u32, val: u64) -> (r: Result<(), ArrayError>)
    requires
        old(array)@.wf(),
    ensures
        final(array)@.wf(),
        r == old(array)@.set_outcome(AI_TYPE_POINTER, i as int),
        final(array)@ == old(array)@.after_set(
            AI_TYPE_POINTER,
            i as int,
            i * 8,
            words_bytes(u64_words(val)),
        ),
{
    let ws = [val as u32, (val >> 32) as u32];
    proof {
        assert(i * (4 * 2nat) == i * 8) by (nonlinear_arith);
        assert(ws@ =~= u64_words(val));
    }
    set_elem_words(array, AI_TYPE_POINTER, i, ws.as_slice())
}

proof fn lemma_key_bounds(m: ArrayModel, key: nat)
    requires
        m.wf(),
        key < m.nkeys,
    ensures
        key * m.key_size() + m.key_size() <= m.data.len(),
        (key + 1) * m.key_size() == key * m.key_size() + m.key_size(),
{
    lemma_count_fits(m);
    lemma_elem_bounds(key, m.nkeys, m.key_size());
    assert(m.nkeys * m.key_size() == m.key_size() * m.nkeys) by (nonlinear_arith);
    assert((key + 1) * m.key_size() == key * m.key_size() + m.key_size()) by (nonlinear_arith);
}

/// Overwrites every element of key `key` with `data`, which packs one key's worth of
/// elements. Fails, changing nothing, with `ConcurrentAccessViolation` while the
/// array is mapped, `InvalidKeyIndex` where `key` is not below the number of keys,
/// and `SizeMismatch` where `data` is not exactly one key's size.
pub fn AiArraySetKey(array: &mut AtArray, key: u8, data: &[u8]) -> (r: Result<(), ArrayError>)
    requires
        old(array)@.wf(),
    ensures
        final(array)@.wf(),
        match old(array)@.set_key_error(key as int, data@.len()) {
            Some(e) => r == Err::<(), ArrayError>(e) && final(array)@ == old(array)@,
            None => r is Ok && final(array)@ == old(array)@.with_bytes(
                key * old(array)@.key_size(),
                data@,
            ),
        },
{
    if !(array.map == MapState::Unmapped) {
        return Err(ArrayError::ConcurrentAccessViolation);
    }
    if key >= array.nkeys {
        return Err(ArrayError::InvalidKeyIndex);
    }
    proof {
        lemma_key_bounds(array@, key as nat);
    }
    let ks = AiArrayGetKeySize(array);
    if data.len() != ks {
        return Err(ArrayError::SizeMismatch);
    }
    write_bytes(&mut array.data, key as usize * ks, data);
    Ok(())
}

/// Opens a map session over the whole buffer. Fails with
/// `ConcurrentAccessViolation` while a session is already open.
pub fn AiArrayMap(array: &mut AtArray) -> (r: Result<(), ArrayError>)
    requires
        old(array)@.wf(),
    ensures
        final(array)@.wf(),
        r == old(array)@.map_outcome(),
        final(array)@ == old(array)@.after_map(),
{
    if !(array.map == MapState::Unmapped) {
        return Err(ArrayError::ConcurrentAccessViolation);
    }
    array.map = MapState::Whole;
    Ok(())
}

/// Opens a map session over key `key`. Fails with `ConcurrentAccessViolation`
/// while a session is already open and with `InvalidKeyIndex` where `key` is not
/// below the number of keys.
pub fn AiArrayMapKey(array: &mut AtArray, key: u8) -> (r: Result<(), ArrayError>)
    requires
        old(array)@.wf(),
    ensures
        final(array)@.wf(),
        r == old(array)@.map_key_outcome(key as int),
        final(array)@ == old(array)@.after_map_key(key),
{
    if !(array.map == MapState::Unmapped) {
        return Err(ArrayError::ConcurrentAccessViolation);
    }
    if key >= array.nkeys {
        return Err(ArrayError::InvalidKeyIndex);
    }
    array.map = MapState::Key(key);
    Ok(())
}

/// Ends the map session, if one is open; other access is allowed again.
pub fn AiArrayUnmap(array: &mut AtArray)
    requires
        old(array)@.wf(),
    ensures
        final(array)@.wf(),
        final(array)@ == old(array)@.after_unmap(),
{
    array.map = MapState::Unmapped;
}

/// Start and length in bytes of the mapped region.
fn mapped_region(array: &AtArray) -> (r: (usize, usize))
    requires
        array@.wf(),
        array@.is_mapped(),
    ensures
        r.0 == array@.mapped_region().0,
        r.1 == array@.mapped_region().1,
        r.0 + r.1 <= array@.data.len(),
{
    match array.map {
        MapState::Key(k) => {
            proof {
                lemma_key_bounds(array@, k as nat);
            }
            let ks = AiArrayGetKeySize(array);
            (k as usize * ks, ks)
        },
        _ => (0, array.data.len()),
    }
}

/// Reads `len` bytes at offset `offset` of the mapped region. Fails with
/// `NotMapped` where no session is open and with `IndexOutOfRange` where the
/// bytes run past the end of the region.
pub fn AiArrayMapRead(array: &AtArray, offset: usize, len: usize) -> (r: Result<Vec<u8>, ArrayError>)
    requires
        array@.wf(),
    ensures
        match array@.mapped_error(offset as int, len as int) {
            Some(e) => r == Err::<Vec<u8>, ArrayError>(e),
            None => r is Ok && r->Ok_0@ == array@.data.subrange(
                array@.mapped_region().0 + offset,
                array@.mapped_region().0 + offset + len,
            ),
        },
{
    if array.map == MapState::Unmapped {
        return Err(ArrayError::NotMapped);
    }
    let (start, size) = mapped_region(array);
    if offset > size || len > size - offset {
        return Err(ArrayError::IndexOutOfRange);
    }
    Ok(read_bytes(&array.data, start + offset, len))
}

/// Writes `src` at offset `offset` of the mapped region. Fails, changing nothing,
/// with `NotMapped` where no session is open and with `IndexOutOfRange` where the
/// bytes run past the end of the region.
pub fn AiArrayMapWrite(array: &mut AtArray, offset: usize, src: &[u8]) -> (r: Result<(), ArrayError>)
    requires
        old(array)@.wf(),
    ensures
        final(array)@.wf(),
        match old(array)@.mapped_error(offset as int, src@.len() as int) {
            Some(e) => r == Err::<(), ArrayError>(e) && final(array)@ == old(array)@,
            None => r is Ok && final(array)@ == old(array)@.with_bytes(
                old(array)@.mapped_region().0 + offset,
                src@,
            ),
        },
{
    if array.map == MapState::Unmapped {
        return Err(ArrayError::NotMapped);
    }
    let (start, size) = mapped_region(array);
    if offset > size || src.len() > size - offset {
        return Err(ArrayError::IndexOutOfRange);
    }
    write_bytes(&mut array.data, start + offset, src);
    Ok(())
}

proof fn lemma_sample_in_range(m: ArrayModel, k: nat, idx: nat)
    requires
        m.wf(),
        k < m.nkeys,
        idx < m.nelements,
    ensures
        k * m.nelements + idx < m.count(),
{
    assert(k * m.nelements + idx < m.nelements * m.nkeys) by (nonlinear_arith)
        requires
            k < m.nkeys,
            idx < m.nelements,
    ;
}

/// The `n` words of the element at flat index `flat`, where each element is `n` words.
fn read_elem_words(array: &AtArray, flat: usize, n: usize) -> (r: Vec<u32>)
    requires
        array@.wf(),
        flat < array@.count(),
        type_size(array@.ty) == 4 * n,
    ensures
        r@ == array@.elem_words(flat as int, n as nat),
{
    proof {
        lemma_elem_bounds(flat as nat, array@.count(), 4 * n as nat);
    }
    read_words(&array.data, flat * (4 * n), n)
}

/// The two samples that interpolating element `idx` at a time in key units whose
/// integer part is `key` blends: the words of element `idx` in the key `key` and in
/// the next key, each clamped to the last key. The blend weight of the second is the
/// fractional part of the time. `t` names the interpolated type: float, RGB, RGBA,
/// vector or matrix. Fails with `ConcurrentAccessViolation` while the array is
/// mapped, with `TypeMismatch` where `t` cannot be interpolated or is not the
/// array's type, and with `IndexOutOfRange` where `idx` is not below the number of
/// elements per key.
pub fn AiArrayInterpolationSamples(array: &AtArray, t: u8, key: u32, idx: u32) -> (r: Result<
    (Vec<u32>, Vec<u32>),
    ArrayError,
>)
    requires
        array@.wf(),
    ensures
        match array@.interp_error(t, idx as int) {
            Some(e) => r == Err::<(Vec<u32>, Vec<u32>), ArrayError>(e),
            None => r is Ok && r->Ok_0.0@ == array@.elem_words(
                array@.interp_samples(key as nat, idx as nat).0 as int,
                interp_words(t),
            ) && r->Ok_0.1@ == array@.elem_words(
                array@.interp_samples(key as nat, idx as nat).1 as int,
                interp_words(t),
            ),
        },
{
    if !(array.map == MapState::Unmapped) {
        return Err(ArrayError::ConcurrentAccessViolation);
    }
    let n: usize = if t == AI_TYPE_FLOAT {
        1
    } else if t == AI_TYPE_RGBA {
        4
    } else if t == AI_TYPE_MATRIX {
        16
    } else if t == AI_TYPE_RGB || t == AI_TYPE_VECTOR {
        3
    } else {
        return Err(ArrayError::TypeMismatch);
    };
    if array.ty != t {
        return Err(ArrayError::TypeMismatch);
    }
    if idx >= array.nelements {
        return Err(ArrayError::IndexOutOfRange);
    }
    let last = array.nkeys - 1;
    let k0: u8 = if key < array.nkeys as u32 {
        key as u8
    } else {
        last
    };
    let k1: u8 = if k0 < last {
        k0 + 1
    } else {
        last
    };
    proof {
        lemma_sample_in_range(array@, k0 as nat, idx as nat);
        lemma_sample_in_range(array@, k1 as nat, idx as nat);
        lemma_count_fits(array@);
    }
    let s0 = k0 as usize * array.nelements as usize + idx as usize;
    let s1 = k1 as usize * array.nelements as usize + idx as usize;
    Ok((read_elem_words(array, s0, n), read_elem_words(array, s1, n)))
}

/// Setting float element `i` to `v` and then reading float element `j` gives `v`
/// where `j` is `i`, and what element `j` held before otherwise.
pub proof fn lemma_set_flt_then_get(m: ArrayModel, i: int, j: int, v: u32)
    requires
        m.wf(),
        0 <= i,
        m.access_error(AI_TYPE_FLOAT, i) is None,
        0 <= j < m.count(),
    ensures
        ({
            let m2 = m.after_set(AI_TYPE_FLOAT, i, i * 4, words_bytes(seq![v]));
            &&& m2.wf()
            &&& m2.get_outcome(AI_TYPE_FLOAT, j, m2.word(j)) == Ok::<u32, ArrayError>(
                if j == i {
                    v
                } else {
                    m.word(j)
                },
            )
        }),
{
    let b = words_bytes(seq![v]);
    assert(seq![v].drop_last() =~= Seq::<u32>::empty());
    reveal_with_fuel(words_bytes, 2);
    assert(b =~= u32_bytes(v));
    let m2 = m.after_set(AI_TYPE_FLOAT, i, i * 4, b);
    lemma_count_fits(m);
    lemma_elem_bounds(i as nat, m.count(), 4);
    lemma_elem_bounds(j as nat, m.count(), 4);
    assert(m2.data.len() == m.data.len());
    if j == i {
        assert(m2.data.subrange(4 * i, 4 * i + 4) =~= u32_bytes(v));
        lemma_le_u32_of_bytes(m2.data, 4 * i, v);
    } else {
        assert(m2.data[4 * j] == m.data[4 * j]);
        assert(m2.data[4 * j + 1] == m.data[4 * j + 1]);
        assert(m2.data[4 * j + 2] == m.data[4 * j + 2]);
        assert(m2.data[4 * j + 3] == m.data[4 * j + 3]);
    }
}

/// Setting element `i` of an array whose elements are `ws.len()` words to `ws`, and
/// then reading element `i`, gives `ws`.
pub proof fn lemma_set_words_then_get(m: ArrayModel, t: u8, i: int, ws: Seq<u32>)
    requires
        m.wf(),
        0 <= i,
        type_size(t) == 4 * ws.len(),
        m.access_error(t, i) is None,
    ensures
        ({
            let m2 = m.after_set(t, i, i * (4 * ws.len()), words_bytes(ws));
            &&& m2.wf()
            &&& m2.elem_words(i, ws.len()) == ws
        }),
{
    let o = i * (4 * ws.len());
    let m2 = m.after_set(t, i, o, words_bytes(ws));
    lemma_words_bytes_len(ws);
    lemma_elem_bounds(i as nat, m.count(), 4 * ws.len());
    assert(m2.data.subrange(o, o + 4 * ws.len()) =~= words_bytes(ws));
    lemma_words_round_trip(m2.data, o, ws);
}

/// Setting element `i` of a pointer array to the handle `v`, and then reading element
/// `i`, gives `v`.
pub proof fn lemma_set_ptr_then_get(m: ArrayModel, i: int, v: u64)
    requires
        m.wf(),
        0 <= i,
        m.access_error(AI_TYPE_POINTER, i) is None,
    ensures
        ({
            let m2 = m.after_set(AI_TYPE_POINTER, i, i * 8, words_bytes(u64_words(v)));
            &&& m2.wf()
            &&& m2.get_outcome(AI_TYPE_POINTER, i, m2.handle(i)) == Ok::<u64, ArrayError>(v)
        }),
{
    assert(i * (4 * 2nat) == i * 8) by (nonlinear_arith);
    lemma_set_words_then_get(m, AI_TYPE_POINTER, i, u64_words(v));
    lemma_u64_words(v);
}

/// Setting element `i` of a signed-integer array to `v`, and then reading element
/// `i`, gives `v`.
pub proof fn lemma_set_int_then_get(m: ArrayModel, i: int, v: i32)
    requires
        m.wf(),
        0 <= i,
        m.access_error(AI_TYPE_INT, i) is None,
    ensures
        ({
            let m2 = m.after_set(AI_TYPE_INT, i, i * 4, words_bytes(seq![v as u32]));
            &&& m2.wf()
            &&& m2.get_outcome(AI_TYPE_INT, i, m2.word(i) as i32) == Ok::<i32, ArrayError>(v)
        }),
{
    assert(i * (4 * 1nat) == i * 4) by (nonlinear_arith);
    lemma_set_words_then_get(m, AI_TYPE_INT, i, seq![v as u32]);
    let m2 = m.after_set(AI_TYPE_INT, i, i * 4, words_bytes(seq![v as u32]));
    lemma_word_elem(m2, i);
    let w = v as u32;
    assert(w as i32 == v) by (bit_vector)
        requires
            w == v as u32,
    ;
}

/// Writing key `key` with `d` and then reading key `k` gives `d` where `k` is `key`,
/// and the bytes that key `k` held before otherwise.
pub proof fn lemma_set_key_then_read(m: ArrayModel, key: int, d: Seq<u8>, k: int)
    requires
        m.wf(),
        0 <= key,
        m.set_key_error(key, d.len()) is None,
        0 <= k < m.nkeys,
    ensures
        ({
            let m2 = m.with_bytes(key * m.key_size(), d);
            &&& m2.wf()
            &&& m2.key_bytes(k) == if k == key {
                d
            } else {
                m.key_bytes(k)
            }
        }),
{
    let m2 = m.with_bytes(key * m.key_size(), d);
    lemma_key_bounds(m, key as nat);
    lemma_key_bounds(m, k as nat);
    let ks = m.key_size() as int;
    if k == key {
        assert(m2.key_bytes(k) =~= d);
    } else {
        if k < key {
            assert((k + 1) * ks <= key * ks) by (nonlinear_arith)
                requires
                    k < key,
                    ks >= 0,
            ;
        } else {
            assert((key + 1) * ks <= k * ks) by (nonlinear_arith)
                requires
                    key < k,
                    ks >= 0,
            ;
        }
        assert(m2.key_bytes(k) =~= m.key_bytes(k));
    }
}

/// A float getter on an integer array fails with `TypeMismatch`, whatever the index.
pub proof fn lemma_float_getter_on_int_array(m: ArrayModel, i: int, v: u32)
    requires
        m.wf(),
        !m.is_mapped(),
        m.ty == AI_TYPE_INT,
    ensures
        m.get_outcome(AI_TYPE_FLOAT, i, v) == Err::<u32, ArrayError>(ArrayError::TypeMismatch),
{
}

/// A float getter at the index one past the last element fails with `IndexOutOfRange`.
pub proof fn lemma_float_getter_past_end(m: ArrayModel, v: u32)
    requires
        m.wf(),
        !m.is_mapped(),
        m.ty == AI_TYPE_FLOAT,
    ensures
        m.get_outcome(AI_TYPE_FLOAT, m.count() as int, v) == Err::<u32, ArrayError>(
            ArrayError::IndexOutOfRange,
        ),
{
}

/// At an integer time `k` that names a key, interpolation reads element `idx` of key
/// `k` as its first sample, whose weight is then one, and the element of the next key
/// as its second; an array of one key gives element `idx` of that key as both.
pub proof fn lemma_samples_at_key(m: ArrayModel, k: nat, idx: nat)
    requires
        m.wf(),
        k < m.nkeys,
        idx < m.nelements,
    ensures
        m.interp_samples(k, idx).0 == k * m.nelements + idx,
        k + 1 < m.nkeys ==> m.interp_samples(k, idx).1 == (k + 1) * m.nelements + idx,
        m.nkeys == 1 ==> m.interp_samples(k, idx) == (idx, idx),
{
}

/// A map session excludes a second one, over the whole buffer or over a key, until it
/// is unmapped; after the unmap a new session opens.
pub proof fn lemma_map_exclusive(m: ArrayModel, key: u8)
    requires
        m.wf(),
        !m.is_mapped(),
    ensures
        m.map_outcome() is Ok,
        m.after_map().wf(),
        m.after_map().map_outcome() == Err::<(), ArrayError>(
            ArrayError::ConcurrentAccessViolation,
        ),
        m.after_map().map_key_outcome(key as int) == Err::<(), ArrayError>(
            ArrayError::ConcurrentAccessViolation,
        ),
        m.after_map().after_unmap().map_outcome() is Ok,
        key < m.nkeys ==> {
            &&& m.after_map_key(key).wf()
            &&& m.after_map_key(key).map_outcome() == Err::<(), ArrayError>(
                ArrayError::ConcurrentAccessViolation,
            )
            &&& m.after_map_key(key).after_unmap().map_outcome() is Ok
        },
{
}

} // verus!
