//! Storage patterns: large byte entries in persistent and temporary
//! storage, batched reads and writes, and three layouts for a set of boolean
//! flags (one entry per flag, bits packed into one `u32`, or one map).

use vstd::prelude::*;

verus! {

/// Why a call is rejected; `message` gives the contract's panic message.
#[derive(Copy, Clone, Debug, PartialEq, Eq, Structural)]
pub enum StorageError {
    /// The key and data lists have different lengths.
    LengthMismatch,
    /// More than 32 flags to pack into a `u32`.
    TooManyToPack,
    /// More than 32 flags to unpack from a `u32`.
    TooManyToUnpack,
    /// A flag index past the 32 bits of a `u32`.
    FlagIndexOutOfRange,
    /// The entry holds a value of another type than the one read (the host
    /// traps converting it).
    TypeMismatch,
}

impl StorageError {
    /// The message the contract panics with.
    pub fn message(&self) -> (r: &'static str)
        ensures
            r@ == match self {
                StorageError::LengthMismatch => "Keys and values must have the same length"@,
                StorageError::TooManyToPack => "Cannot pack more than 32 boolean values into a u32"@,
                StorageError::TooManyToUnpack => "Cannot unpack more than 32 boolean values from a u32"@,
                StorageError::FlagIndexOutOfRange => "Flag index out of range for u32"@,
                StorageError::TypeMismatch => "Error(Value, UnexpectedType)"@,
            },
    {
        match self {
            StorageError::LengthMismatch => "Keys and values must have the same length",
            StorageError::TooManyToPack => "Cannot pack more than 32 boolean values into a u32",
            StorageError::TooManyToUnpack => "Cannot unpack more than 32 boolean values from a u32",
            StorageError::FlagIndexOutOfRange => "Flag index out of range for u32",
            StorageError::TypeMismatch => "Error(Value, UnexpectedType)",
        }
    }
}

/// A value stored under a key.
#[derive(Clone, Debug)]
pub enum StoredValue {
    Bytes(Vec<u8>),
    Bool(bool),
    /// Flags packed as the bits of a `u32`.
    Mask(u32),
    /// A `u32 -> bool` map, as its writes in order (the last write of an
    /// index holds).
    Flags(Vec<(u32, bool)>),
}

/// A write of `value` under `key`.
#[derive(Clone, Debug)]
pub struct Slot {
    pub key: Vec<u8>,
    pub value: StoredValue,
}

/// Storage as its writes in order: the last write under a key holds.
pub open spec fn lookup(slots: Seq<Slot>, key: Seq<u8>) -> Option<StoredValue>
    decreases slots.len(),
{
    if slots.len() == 0 {
        None
    } else if slots.last().key@ == key {
        Some(slots.last().value)
    } else {
        lookup(slots.drop_last(), key)
    }
}

/// The flag that a map's writes leave at `idx`.
pub open spec fn flag_at(writes: Seq<(u32, bool)>, idx: u32) -> Option<bool>
    decreases writes.len(),
{
    if writes.len() == 0 {
        None
    } else if writes.last().0 == idx {
        Some(writes.last().1)
    } else {
        flag_at(writes.drop_last(), idx)
    }
}

/// The bytes a stored value holds, if it holds bytes.
pub open spec fn bytes_of(v: StoredValue) -> Option<Seq<u8>> {
    match v {
        StoredValue::Bytes(b) => Some(b@),
        _ => None,
    }
}

/// Bit `i` of `mask`.
pub open spec fn bit(mask: u32, i: u32) -> bool {
    (mask >> i) & 1u32 == 1u32
}

/// The bytes an entry holds for a bytes read: nothing when absent.
pub open spec fn bytes_read(v: Option<StoredValue>) -> Result<Seq<u8>, StorageError> {
    match v {
        None => Ok(Seq::empty()),
        Some(StoredValue::Bytes(b)) => Ok(b@),
        Some(_) => Err(StorageError::TypeMismatch),
    }
}

pub open spec fn bool_read(v: Option<StoredValue>) -> Result<bool, StorageError> {
    match v {
        None => Ok(false),
        Some(StoredValue::Bool(b)) => Ok(b),
        Some(_) => Err(StorageError::TypeMismatch),
    }
}

pub open spec fn mask_read(v: Option<StoredValue>) -> Result<u32, StorageError> {
    match v {
        None => Ok(0u32),
        Some(StoredValue::Mask(m)) => Ok(m),
        Some(_) => Err(StorageError::TypeMismatch),
    }
}

pub open spec fn map_read(v: Option<StoredValue>) -> Result<Seq<(u32, bool)>, StorageError> {
    match v {
        None => Ok(Seq::empty()),
        Some(StoredValue::Flags(w)) => Ok(w@),
        Some(_) => Err(StorageError::TypeMismatch),
    }
}

/// The mask whose bit `i` is `values[i]` and whose other bits are clear.
pub open spec fn packs(mask: u32, values: Seq<bool>) -> bool {
    &&& forall|i: u32| i < values.len() ==> bit(mask, i) == values[i as int]
    &&& forall|i: u32| values.len() <= i < 32 ==> !bit(mask, i)
}

proof fn lemma_bit_set(m: u32, i: u32, j: u32)
    requires
        i < 32,
        j < 32,
    ensures
        bit(m | (1u32 << i), j) == (j == i || bit(m, j)),
        bit(m & !(1u32 << i), j) == (j != i && bit(m, j)),
        ((m & (1u32 << i)) != 0u32) == bit(m, i),
{
    assert(((m | (1u32 << i)) >> j) & 1u32 == 1u32 <==> (j == i || (m >> j) & 1u32 == 1u32)) by (bit_vector)
        requires i < 32, j < 32;
    assert(((m & !(1u32 << i)) >> j) & 1u32 == 1u32 <==> (j != i && (m >> j) & 1u32 == 1u32)) by (bit_vector)
        requires i < 32, j < 32;
    assert(((m & (1u32 << i)) != 0u32) <==> ((m >> i) & 1u32 == 1u32)) by (bit_vector)
        requires i < 32;
}

proof fn lemma_zero_bits(j: u32)
    requires
        j < 32,
    ensures
        !bit(0u32, j),
{
    assert((0u32 >> j) & 1u32 != 1u32) by (bit_vector);
}

/// Packs up to 32 flags into the bits of a `u32` (flag `i` in bit `i`);
/// the contract panics on more.
pub fn pack_booleans(values: &Vec<bool>) -> (mask: u32)
    requires
        values@.len() <= 32,
    ensures
        packs(mask, values@),
{
    let mut mask: u32 = 0;
    let mut i: usize = 0;
    proof {
        assert forall|j: u32| j < 32 implies !bit(mask, j) by {
            lemma_zero_bits(j);
        }
    }
    while i < values.len()
        invariant
            values@.len() <= 32,
            i <= values@.len(),
            forall|j: u32| j < i ==> bit(mask, j) == values@[j as int],
            forall|j: u32| i <= j < 32 ==> !bit(mask, j),
        decreases values@.len() - i,
    {
        if values[i] {
            let ghost m0 = mask;
            mask = mask | (1u32 << (i as u32));
            proof {
                assert forall|j: u32| j < 32 implies bit(mask, j) == (j == i as u32 || bit(m0, j)) by {
                    lemma_bit_set(m0, i as u32, j);
                }
            }
        }
        i += 1;
    }
    mask
}

/// The first `len` (at most 32; the contract panics on more) flags packed
/// in `mask`.
pub fn unpack_booleans(mask: u32, len: u32) -> (v: Vec<bool>)
    requires
        len <= 32,
    ensures
        v@.len() == len,
        forall|i: u32| i < len ==> v@[i as int] == bit(mask, i),
{
    let mut out: Vec<bool> = Vec::new();
    let mut i: u32 = 0;
    while i < len
        invariant
            len <= 32,
            i <= len,
            out@.len() == i,
            forall|j: u32| j < i ==> out@[j as int] == bit(mask, j),
        decreases len - i,
    {
        proof {
            lemma_bit_set(mask, i, i);
        }
        out.push((mask & (1u32 << i)) != 0);
        i += 1;
    }
    out
}

/// `mask` with bit `idx` (below 32; the contract panics otherwise) set to
/// `value`.
pub fn set_flag(mask: u32, idx: u32, value: bool) -> (m: u32)
    requires
        idx < 32,
    ensures
        forall|j: u32| j < 32 ==> bit(m, j) == if j == idx { value } else { bit(mask, j) },
{
    let m = if value { mask | (1u32 << idx) } else { mask & !(1u32 << idx) };
    proof {
        assert forall|j: u32| j < 32 implies bit(m, j) == if j == idx { value } else { bit(mask, j) } by {
            lemma_bit_set(mask, idx, j);
        }
    }
    m
}

/// Packing then unpacking the same number of flags gives them back.
pub proof fn law_pack_roundtrip(mask: u32, values: Seq<bool>, unpacked: Seq<bool>)
    requires
        values.len() <= 32,
        packs(mask, values),
        unpacked.len() == values.len(),
        forall|i: u32| i < values.len() ==> unpacked[i as int] == bit(mask, i),
    ensures
        unpacked == values,
{
    assert forall|i: int| 0 <= i < values.len() implies unpacked[i] == values[i] by {
        assert(unpacked[(i as u32) as int] == bit(mask, i as u32));
    }
    assert(unpacked =~= values);
}

/// Reading a key that was last written with bytes gives those bytes back.
pub proof fn law_bytes_read_after_write(slots: Seq<Slot>, key: Seq<u8>, data: Seq<u8>)
    requires
        lookup(slots, key) matches Some(StoredValue::Bytes(b)) && b@ == data,
    ensures
        bytes_read(lookup(slots, key)) == Ok::<Seq<u8>, StorageError>(data),
{
}

/// Reading as many flags as were last packed under a key gives them back.
pub proof fn law_packed_read_after_write(slots: Seq<Slot>, key: Seq<u8>, values: Seq<bool>, read: Seq<bool>)
    requires
        values.len() <= 32,
        lookup(slots, key) matches Some(StoredValue::Mask(m)) && packs(m, values),
        read.len() == values.len(),
        forall|i: u32| i < values.len() ==> read[i as int] == bit(mask_read(lookup(slots, key))->Ok_0, i),
    ensures
        read == values,
{
    let m = mask_read(lookup(slots, key))->Ok_0;
    law_pack_roundtrip(m, values, read);
}

/// The contract's storage.
pub struct StorageHeavyContract {
    pub persistent: Vec<Slot>,
    pub temporary: Vec<Slot>,
}

fn copy_key(key: &Vec<u8>) -> (r: Vec<u8>)
    ensures
        r@ == key@,
{
    let r = key.clone();
    assert(r@ =~= key@);
    r
}

fn same_key(a: &Vec<u8>, b: &Vec<u8>) -> (r: bool)
    ensures
        r == (a@ == b@),
{
    if a.len() != b.len() {
        return false;
    }
    let mut i: usize = 0;
    while i < a.len()
        invariant
            a@.len() == b@.len(),
            i <= a@.len(),
            forall|j: int| 0 <= j < i ==> a@[j] == b@[j],
        decreases a@.len() - i,
    {
        if a[i] != b[i] {
            return false;
        }
        i += 1;
    }
    assert(a@ =~= b@);
    true
}

/// The index of the last write under `key`.
fn find_slot(slots: &Vec<Slot>, key: &Vec<u8>) -> (r: Option<usize>)
    ensures
        r is None ==> lookup(slots@, key@) is None,
        r matches Some(i) ==> i < slots@.len() && lookup(slots@, key@) == Some(slots@[i as int].value),
{
    let mut i: usize = slots.len();
    assert(slots@.subrange(0, i as int) =~= slots@);
    while i > 0
        invariant
            i <= slots@.len(),
            lookup(slots@, key@) == lookup(slots@.subrange(0, i as int), key@),
        decreases i,
    {
        proof {
            assert(slots@.subrange(0, i as int).drop_last() =~= slots@.subrange(0, i - 1 as int));
        }
        if same_key(&slots[i - 1].key, key) {
            return Some(i - 1);
        }
        i -= 1;
    }
    None
}

fn read_bytes(slots: &Vec<Slot>, key: &Vec<u8>) -> (r: Result<Vec<u8>, StorageError>)
    ensures
        match r {
            Ok(b) => bytes_read(lookup(slots@, key@)) == Ok::<Seq<u8>, StorageError>(b@),
            Err(e) => bytes_read(lookup(slots@, key@)) == Err::<Seq<u8>, StorageError>(e),
        },
{
    match find_slot(slots, key) {
        None => Ok(Vec::new()),
        Some(i) => match &slots[i].value {
            StoredValue::Bytes(b) => {
                let c = b.clone();
                assert(c@ =~= b@);
                Ok(c)
            },
            _ => Err(StorageError::TypeMismatch),
        },
    }
}

fn read_bool(slots: &Vec<Slot>, key: &Vec<u8>) -> (r: Result<bool, StorageError>)
    ensures
        r == bool_read(lookup(slots@, key@)),
{
    match find_slot(slots, key) {
        None => Ok(false),
        Some(i) => match &slots[i].value {
            StoredValue::Bool(b) => Ok(*b),
            _ => Err(StorageError::TypeMismatch),
        },
    }
}

fn read_mask(slots: &Vec<Slot>, key: &Vec<u8>) -> (r: Result<u32, StorageError>)
    ensures
        r == mask_read(lookup(slots@, key@)),
{
    match find_slot(slots, key) {
        None => Ok(0),
        Some(i) => match &slots[i].value {
            StoredValue::Mask(m) => Ok(*m),
            _ => Err(StorageError::TypeMismatch),
        },
    }
}

fn read_map(slots: &Vec<Slot>, key: &Vec<u8>) -> (r: Result<Vec<(u32, bool)>, StorageError>)
    ensures
        match r {
            Ok(w) => map_read(lookup(slots@, key@)) == Ok::<Seq<(u32, bool)>, StorageError>(w@),
            Err(e) => map_read(lookup(slots@, key@)) == Err::<Seq<(u32, bool)>, StorageError>(e),
        },
{
    match find_slot(slots, key) {
        None => Ok(Vec::new()),
        Some(i) => match &slots[i].value {
            StoredValue::Flags(w) => Ok(copy_flags(w)),
            _ => Err(StorageError::TypeMismatch),
        },
    }
}

fn copy_flags(w: &Vec<(u32, bool)>) -> (r: Vec<(u32, bool)>)
    ensures
        r@ == w@,
{
    let mut out: Vec<(u32, bool)> = Vec::new();
    let mut i: usize = 0;
    while i < w.len()
        invariant
            i <= w@.len(),
            out@ == w@.subrange(0, i as int),
        decreases w@.len() - i,
    {
        out.push(w[i]);
        i += 1;
        assert(out@ =~= w@.subrange(0, i as int));
    }
    assert(w@.subrange(0, w@.len() as int) =~= w@);
    out
}

/// The flag a map holds at `idx` (`false` when unset).
fn map_flag(writes: &Vec<(u32, bool)>, idx: u32) -> (r: bool)
    ensures
        r == match flag_at(writes@, idx) { Some(b) => b, None => false },
{
    let mut i: usize = writes.len();
    assert(writes@.subrange(0, i as int) =~= writes@);
    while i > 0
        invariant
            i <= writes@.len(),
            flag_at(writes@, idx) == flag_at(writes@.subrange(0, i as int), idx),
        decreases i,
    {
        proof {
            assert(writes@.subrange(0, i as int).drop_last() =~= writes@.subrange(0, i - 1 as int));
        }
        if writes[i - 1].0 == idx {
            return writes[i - 1].1;
        }
        i -= 1;
    }
    false
}

impl StorageHeavyContract {
    /// Empty storage.
    pub fn new() -> (r: StorageHeavyContract)
        ensures
            r.persistent@.len() == 0,
            r.temporary@.len() == 0,
    {
        StorageHeavyContract { persistent: Vec::new(), temporary: Vec::new() }
    }

    /// Writes a single (large) entry to persistent storage.
    pub fn write_persistent(&mut self, key: &Vec<u8>, data: Vec<u8>)
        ensures
            lookup(final(self).persistent@, key@) matches Some(StoredValue::Bytes(b)) && b@ == data@,
            forall|k: Seq<u8>| k != key@ ==> lookup(final(self).persistent@, k) == lookup(old(self).persistent@, k),
            final(self).temporary@ == old(self).temporary@,
    {
        let ghost s0 = self.persistent@;
        self.persistent.push(Slot { key: copy_key(key), value: StoredValue::Bytes(data) });
        proof {
            assert(self.persistent@.drop_last() =~= s0);
        }
    }

    /// Writes a single (large) entry to temporary storage.
    pub fn write_temporary(&mut self, key: &Vec<u8>, data: Vec<u8>)
        ensures
            lookup(final(self).temporary@, key@) matches Some(StoredValue::Bytes(b)) && b@ == data@,
            forall|k: Seq<u8>| k != key@ ==> lookup(final(self).temporary@, k) == lookup(old(self).temporary@, k),
            final(self).persistent@ == old(self).persistent@,
    {
        let ghost s0 = self.temporary@;
        self.temporary.push(Slot { key: copy_key(key), value: StoredValue::Bytes(data) });
        proof {
            assert(self.temporary@.drop_last() =~= s0);
        }
    }

    /// Tells whether the entry under `key` (in temporary storage when
    /// `temporary`, else in persistent storage) reads as bytes; the host
    /// traps on an entry of another type.
    pub fn check_bytes(&self, key: &Vec<u8>, temporary: bool) -> (r: Result<(), StorageError>)
        ensures
            r == (if bytes_read(lookup(if temporary { self.temporary@ } else { self.persistent@ }, key@)) is Ok {
                Ok(())
            } else {
                Err(StorageError::TypeMismatch)
            }),
    {
        let slots = if temporary { &self.temporary } else { &self.persistent };
        match read_bytes(slots, key) {
            Ok(_) => Ok(()),
            Err(e) => Err(e),
        }
    }

    /// Tells whether the persistent entry under `key` reads as a flag.
    pub fn check_bool(&self, key: &Vec<u8>) -> (r: Result<(), StorageError>)
        ensures
            r == (if bool_read(lookup(self.persistent@, key@)) is Ok { Ok(()) } else { Err(StorageError::TypeMismatch) }),
    {
        match read_bool(&self.persistent, key) {
            Ok(_) => Ok(()),
            Err(e) => Err(e),
        }
    }

    /// Tells whether the persistent entry under `key` reads as a packed mask.
    pub fn check_mask(&self, key: &Vec<u8>) -> (r: Result<(), StorageError>)
        ensures
            r == (if mask_read(lookup(self.persistent@, key@)) is Ok { Ok(()) } else { Err(StorageError::TypeMismatch) }),
    {
        match read_mask(&self.persistent, key) {
            Ok(_) => Ok(()),
            Err(e) => Err(e),
        }
    }

    /// Tells whether the persistent entry under `key` reads as a flag map.
    pub fn check_map(&self, key: &Vec<u8>) -> (r: Result<(), StorageError>)
        ensures
            r == (if map_read(lookup(self.persistent@, key@)) is Ok { Ok(()) } else { Err(StorageError::TypeMismatch) }),
    {
        match read_map(&self.persistent, key) {
            Ok(_) => Ok(()),
            Err(e) => Err(e),
        }
    }

    /// The bytes under `key` in persistent storage (empty when absent).
    pub fn read_persistent(&self, key: &Vec<u8>) -> (r: Vec<u8>)
        requires
            bytes_read(lookup(self.persistent@, key@)) is Ok,
        ensures
            bytes_read(lookup(self.persistent@, key@)) == Ok::<Seq<u8>, StorageError>(r@),
    {
        match read_bytes(&self.persistent, key) {
            Ok(b) => b,
            Err(_) => Vec::new(),
        }
    }

    /// The bytes under `key` in temporary storage (empty when absent).
    pub fn read_temporary(&self, key: &Vec<u8>) -> (r: Vec<u8>)
        requires
            bytes_read(lookup(self.temporary@, key@)) is Ok,
        ensures
            bytes_read(lookup(self.temporary@, key@)) == Ok::<Seq<u8>, StorageError>(r@),
    {
        match read_bytes(&self.temporary, key) {
            Ok(b) => b,
            Err(_) => Vec::new(),
        }
    }

    /// Writes `data_points[i]` under `keys[i]` in persistent storage, in order
    /// (the contract panics on lists of different lengths).
    pub fn batch_write_persistent(&mut self, keys: &Vec<Vec<u8>>, data_points: Vec<Vec<u8>>)
        requires
            keys@.len() == data_points@.len(),
        ensures
            final(self).persistent@.len() == old(self).persistent@.len() + keys@.len(),
            final(self).persistent@.subrange(0, old(self).persistent@.len() as int) == old(self).persistent@,
            forall|i: int| 0 <= i < keys@.len() ==>
                (#[trigger] final(self).persistent@[old(self).persistent@.len() + i]).key@ == keys@[i]@
                && bytes_of(final(self).persistent@[old(self).persistent@.len() + i].value) == Some(data_points@[i]@),
            final(self).temporary@ == old(self).temporary@,
    {
        batch_write(&mut self.persistent, keys, data_points);
    }

    /// Writes `data_points[i]` under `keys[i]` in temporary storage, in order
    /// (the contract panics on lists of different lengths).
    pub fn batch_write_temporary(&mut self, keys: &Vec<Vec<u8>>, data_points: Vec<Vec<u8>>)
        requires
            keys@.len() == data_points@.len(),
        ensures
            final(self).temporary@.len() == old(self).temporary@.len() + keys@.len(),
            final(self).temporary@.subrange(0, old(self).temporary@.len() as int) == old(self).temporary@,
            forall|i: int| 0 <= i < keys@.len() ==>
                (#[trigger] final(self).temporary@[old(self).temporary@.len() + i]).key@ == keys@[i]@
                && bytes_of(final(self).temporary@[old(self).temporary@.len() + i].value) == Some(data_points@[i]@),
            final(self).persistent@ == old(self).persistent@,
    {
        batch_write(&mut self.temporary, keys, data_points);
    }

    /// The bytes under each key in persistent storage (the host traps on an
    /// entry of another type).
    pub fn batch_read_persistent(&self, keys: &Vec<Vec<u8>>) -> (v: Vec<Vec<u8>>)
        requires
            forall|i: int| 0 <= i < keys@.len() ==> #[trigger] bytes_read(lookup(self.persistent@, keys@[i]@)) is Ok,
        ensures
            v@.len() == keys@.len(),
            forall|i: int| 0 <= i < keys@.len() ==>
                bytes_read(lookup(self.persistent@, keys@[i]@)) == Ok::<Seq<u8>, StorageError>((#[trigger] v@[i])@),
    {
        batch_read(&self.persistent, keys)
    }

    /// The bytes under each key in temporary storage (the host traps on an
    /// entry of another type).
    pub fn batch_read_temporary(&self, keys: &Vec<Vec<u8>>) -> (v: Vec<Vec<u8>>)
        requires
            forall|i: int| 0 <= i < keys@.len() ==> #[trigger] bytes_read(lookup(self.temporary@, keys@[i]@)) is Ok,
        ensures
            v@.len() == keys@.len(),
            forall|i: int| 0 <= i < keys@.len() ==>
                bytes_read(lookup(self.temporary@, keys@[i]@)) == Ok::<Seq<u8>, StorageError>((#[trigger] v@[i])@),
    {
        batch_read(&self.temporary, keys)
    }

    /// Writes `values[i]` under `keys[i]`, one persistent entry per flag
    /// (the contract panics on lists of different lengths).
    pub fn write_separate_booleans(&mut self, keys: &Vec<Vec<u8>>, values: &Vec<bool>)
        requires
            keys@.len() == values@.len(),
        ensures
            final(self).persistent@.len() == old(self).persistent@.len() + keys@.len(),
            final(self).persistent@.subrange(0, old(self).persistent@.len() as int) == old(self).persistent@,
            forall|i: int| 0 <= i < keys@.len() ==>
                (#[trigger] final(self).persistent@[old(self).persistent@.len() + i]).key@ == keys@[i]@
                && final(self).persistent@[old(self).persistent@.len() + i].value == StoredValue::Bool(values@[i]),
            final(self).temporary@ == old(self).temporary@,
    {
        let ghost s0 = self.persistent@;
        let mut i: usize = 0;
        while i < keys.len()
            invariant
                keys@.len() == values@.len(),
                i <= keys@.len(),
                self.temporary@ == old(self).temporary@,
                s0 == old(self).persistent@,
                self.persistent@.len() == s0.len() + i,
                self.persistent@.subrange(0, s0.len() as int) == s0,
                forall|j: int| 0 <= j < i ==>
                    (#[trigger] self.persistent@[s0.len() + j]).key@ == keys@[j]@
                    && self.persistent@[s0.len() + j].value == StoredValue::Bool(values@[j]),
            decreases keys@.len() - i,
        {
            let ghost before = self.persistent@;
            self.persistent.push(Slot { key: copy_key(&keys[i]), value: StoredValue::Bool(values[i]) });
            proof {
                assert(self.persistent@.subrange(0, s0.len() as int) =~= before.subrange(0, s0.len() as int));
                assert forall|j: int| 0 <= j < i + 1 implies
                    (#[trigger] self.persistent@[s0.len() + j]).key@ == keys@[j]@
                    && self.persistent@[s0.len() + j].value == StoredValue::Bool(values@[j]) by {
                    if j < i {
                        assert(self.persistent@[s0.len() + j] == before[s0.len() + j]);
                    }
                }
            }
            i += 1;
        }
    }

    /// The flag under each key (`false` when absent; the host traps on an
    /// entry of another type).
    pub fn read_separate_booleans(&self, keys: &Vec<Vec<u8>>) -> (v: Vec<bool>)
        requires
            forall|i: int| 0 <= i < keys@.len() ==> #[trigger] bool_read(lookup(self.persistent@, keys@[i]@)) is Ok,
        ensures
            v@.len() == keys@.len(),
            forall|i: int| 0 <= i < keys@.len() ==>
                bool_read(lookup(self.persistent@, keys@[i]@)) == Ok::<bool, StorageError>(#[trigger] v@[i]),
    {
        let mut out: Vec<bool> = Vec::new();
        let mut i: usize = 0;
        while i < keys.len()
            invariant
                forall|i: int| 0 <= i < keys@.len() ==> #[trigger] bool_read(lookup(self.persistent@, keys@[i]@)) is Ok,
                i <= keys@.len(),
                out@.len() == i,
                forall|j: int| 0 <= j < i ==>
                    bool_read(lookup(self.persistent@, keys@[j]@)) == Ok::<bool, StorageError>(#[trigger] out@[j]),
            decreases keys@.len() - i,
        {
            assert(bool_read(lookup(self.persistent@, keys@[i as int]@)) is Ok);
            match read_bool(&self.persistent, &keys[i]) {
                Ok(b) => out.push(b),
                Err(_) => out.push(false),
            }
            i += 1;
        }
        out
    }

    /// Packs up to 32 flags (the contract panics on more) into one `u32`
    /// entry under `key`.
    pub fn write_packed_booleans(&mut self, key: &Vec<u8>, values: &Vec<bool>)
        requires
            values@.len() <= 32,
        ensures
            lookup(final(self).persistent@, key@) matches Some(StoredValue::Mask(m)) && packs(m, values@),
            forall|k: Seq<u8>| k != key@ ==> lookup(final(self).persistent@, k) == lookup(old(self).persistent@, k),
            final(self).temporary@ == old(self).temporary@,
    {
        let mask = pack_booleans(values);
        let ghost s0 = self.persistent@;
        self.persistent.push(Slot { key: copy_key(key), value: StoredValue::Mask(mask) });
        proof {
            assert(self.persistent@.drop_last() =~= s0);
        }
    }

    /// The first `len` (at most 32; the contract panics on more) flags
    /// packed under `key` (all clear when absent; the host traps on an entry
    /// of another type).
    pub fn read_packed_booleans(&self, key: &Vec<u8>, len: u32) -> (v: Vec<bool>)
        requires
            len <= 32,
            mask_read(lookup(self.persistent@, key@)) is Ok,
        ensures
            v@.len() == len,
            forall|i: u32| i < len ==> v@[i as int] == bit(mask_read(lookup(self.persistent@, key@))->Ok_0, i),
    {
        let mask = match read_mask(&self.persistent, key) {
            Ok(m) => m,
            Err(_) => 0,
        };
        unpack_booleans(mask, len)
    }

    /// Sets the flag under `key`.
    pub fn update_separate_boolean(&mut self, key: &Vec<u8>, value: bool)
        ensures
            lookup(final(self).persistent@, key@) == Some(StoredValue::Bool(value)),
            forall|k: Seq<u8>| k != key@ ==> lookup(final(self).persistent@, k) == lookup(old(self).persistent@, k),
            final(self).temporary@ == old(self).temporary@,
    {
        let ghost s0 = self.persistent@;
        self.persistent.push(Slot { key: copy_key(key), value: StoredValue::Bool(value) });
        proof {
            assert(self.persistent@.drop_last() =~= s0);
        }
    }

    /// Sets flag `flag_idx` (below 32; the contract panics otherwise) of the
    /// mask under `key`, leaving the other flags as they were.
    pub fn update_packed_boolean(&mut self, key: &Vec<u8>, flag_idx: u32, value: bool)
        requires
            flag_idx < 32,
            mask_read(lookup(old(self).persistent@, key@)) is Ok,
        ensures
            lookup(final(self).persistent@, key@) matches Some(StoredValue::Mask(m))
                && forall|j: u32| j < 32 ==> bit(m, j) == if j == flag_idx { value } else {
                    bit(mask_read(lookup(old(self).persistent@, key@))->Ok_0, j)
                },
            forall|k: Seq<u8>| k != key@ ==> lookup(final(self).persistent@, k) == lookup(old(self).persistent@, k),
            final(self).temporary@ == old(self).temporary@,
    {
        let mask = match read_mask(&self.persistent, key) {
            Ok(m) => m,
            Err(_) => 0,
        };
        let m = set_flag(mask, flag_idx, value);
        let ghost s0 = self.persistent@;
        self.persistent.push(Slot { key: copy_key(key), value: StoredValue::Mask(m) });
        proof {
            assert(self.persistent@.drop_last() =~= s0);
        }
    }

    /// Writes the flags as a map `i -> values[i]` under `key`.
    pub fn write_map_booleans(&mut self, key: &Vec<u8>, values: &Vec<bool>)
        requires
            values@.len() <= u32::MAX,
        ensures
            lookup(final(self).persistent@, key@) matches Some(StoredValue::Flags(w))
                && forall|i: u32| #[trigger] flag_at(w@, i) == if i < values@.len() { Some(values@[i as int]) } else { None },
            forall|k: Seq<u8>| k != key@ ==> lookup(final(self).persistent@, k) == lookup(old(self).persistent@, k),
            final(self).temporary@ == old(self).temporary@,
    {
        let mut w: Vec<(u32, bool)> = Vec::new();
        let mut i: usize = 0;
        while i < values.len()
            invariant
                i <= values@.len(),
                values@.len() <= u32::MAX,
                w@.len() == i,
                forall|j: int| 0 <= j < i ==> (#[trigger] w@[j]) == (j as u32, values@[j]),
            decreases values@.len() - i,
        {
            w.push((i as u32, values[i]));
            i += 1;
        }
        proof {
            lemma_flags_dense(w@, values@);
        }
        let ghost s0 = self.persistent@;
        self.persistent.push(Slot { key: copy_key(key), value: StoredValue::Flags(w) });
        proof {
            assert(self.persistent@.drop_last() =~= s0);
        }
    }

    /// The first `len` flags of the map under `key` (unset ones `false`; the
    /// host traps on an entry of another type).
    pub fn read_map_booleans(&self, key: &Vec<u8>, len: u32) -> (v: Vec<bool>)
        requires
            map_read(lookup(self.persistent@, key@)) is Ok,
        ensures
            v@.len() == len,
            forall|i: u32| i < len ==>
                v@[i as int] == match flag_at(map_read(lookup(self.persistent@, key@))->Ok_0, i) { Some(b) => b, None => false },
    {
        let w = match read_map(&self.persistent, key) {
            Ok(w) => w,
            Err(_) => Vec::new(),
        };
        let mut out: Vec<bool> = Vec::new();
        let mut i: u32 = 0;
        while i < len
            invariant
                i <= len,
                out@.len() == i,
                forall|j: u32| j < i ==> out@[j as int] == match flag_at(w@, j) { Some(b) => b, None => false },
            decreases len - i,
        {
            out.push(map_flag(&w, i));
            i += 1;
        }
        out
    }

    /// Sets flag `flag_idx` of the map under `key` (the host traps on an
    /// entry of another type).
    pub fn update_map_boolean(&mut self, key: &Vec<u8>, flag_idx: u32, value: bool)
        requires
            map_read(lookup(old(self).persistent@, key@)) is Ok,
        ensures
            lookup(final(self).persistent@, key@) matches Some(StoredValue::Flags(w))
                && w@ == map_read(lookup(old(self).persistent@, key@))->Ok_0.push((flag_idx, value)),
            forall|k: Seq<u8>| k != key@ ==> lookup(final(self).persistent@, k) == lookup(old(self).persistent@, k),
            final(self).temporary@ == old(self).temporary@,
    {
        let mut w = match read_map(&self.persistent, key) {
            Ok(w) => w,
            Err(_) => Vec::new(),
        };
        w.push((flag_idx, value));
        let ghost s0 = self.persistent@;
        self.persistent.push(Slot { key: copy_key(key), value: StoredValue::Flags(w) });
        proof {
            assert(self.persistent@.drop_last() =~= s0);
        }
    }
}

fn batch_write(slots: &mut Vec<Slot>, keys: &Vec<Vec<u8>>, data_points: Vec<Vec<u8>>)
    requires
        keys@.len() == data_points@.len(),
    ensures
        final(slots)@.len() == old(slots)@.len() + keys@.len(),
        final(slots)@.subrange(0, old(slots)@.len() as int) == old(slots)@,
        forall|i: int| 0 <= i < keys@.len() ==>
            (#[trigger] final(slots)@[old(slots)@.len() + i]).key@ == keys@[i]@
            && bytes_of(final(slots)@[old(slots)@.len() + i].value) == Some(data_points@[i]@),
{
    let ghost s0 = slots@;
    let mut i: usize = 0;
    while i < keys.len()
        invariant
            keys@.len() == data_points@.len(),
            i <= keys@.len(),
            s0 == old(slots)@,
            slots@.len() == s0.len() + i,
            slots@.subrange(0, s0.len() as int) == s0,
            forall|j: int| 0 <= j < i ==>
                (#[trigger] slots@[s0.len() + j]).key@ == keys@[j]@
                && bytes_of(slots@[s0.len() + j].value) == Some(data_points@[j]@),
        decreases keys@.len() - i,
    {
        let ghost before = slots@;
        let d = data_points[i].clone();
        assert(d@ =~= data_points@[i as int]@);
        slots.push(Slot { key: copy_key(&keys[i]), value: StoredValue::Bytes(d) });
        proof {
            assert(slots@.subrange(0, s0.len() as int) =~= before.subrange(0, s0.len() as int));
            assert forall|j: int| 0 <= j < i + 1 implies
                (#[trigger] slots@[s0.len() + j]).key@ == keys@[j]@
                && bytes_of(slots@[s0.len() + j].value) == Some(data_points@[j]@) by {
                if j < i {
                    assert(slots@[s0.len() + j] == before[s0.len() + j]);
                }
            }
        }
        i += 1;
    }
}

fn batch_read(slots: &Vec<Slot>, keys: &Vec<Vec<u8>>) -> (v: Vec<Vec<u8>>)
    requires
        forall|i: int| 0 <= i < keys@.len() ==> #[trigger] bytes_read(lookup(slots@, keys@[i]@)) is Ok,
    ensures
        v@.len() == keys@.len(),
        forall|i: int| 0 <= i < keys@.len() ==>
            bytes_read(lookup(slots@, keys@[i]@)) == Ok::<Seq<u8>, StorageError>((#[trigger] v@[i])@),
{
    let mut out: Vec<Vec<u8>> = Vec::new();
    let mut i: usize = 0;
    while i < keys.len()
        invariant
            forall|i: int| 0 <= i < keys@.len() ==> #[trigger] bytes_read(lookup(slots@, keys@[i]@)) is Ok,
            i <= keys@.len(),
            out@.len() == i,
            forall|j: int| 0 <= j < i ==>
                bytes_read(lookup(slots@, keys@[j]@)) == Ok::<Seq<u8>, StorageError>((#[trigger] out@[j])@),
        decreases keys@.len() - i,
    {
        assert(bytes_read(lookup(slots@, keys@[i as int]@)) is Ok);
        match read_bytes(slots, &keys[i]) {
            Ok(b) => out.push(b),
            Err(_) => out.push(Vec::new()),
        }
        i += 1;
    }
    out
}

proof fn lemma_flags_dense(w: Seq<(u32, bool)>, values: Seq<bool>)
    requires
        w.len() == values.len(),
        forall|j: int| 0 <= j < w.len() ==> (#[trigger] w[j]) == (j as u32, values[j]),
        w.len() <= u32::MAX,
    ensures
        forall|i: u32| #[trigger] flag_at(w, i) == if i < values.len() { Some(values[i as int]) } else { None },
    decreases w.len(),
{
    if w.len() > 0 {
        let w0 = w.drop_last();
        let v0 = values.drop_last();
        assert forall|j: int| 0 <= j < w0.len() implies (#[trigger] w0[j]) == (j as u32, v0[j]) by {
            assert(w0[j] == w[j]);
        }
        lemma_flags_dense(w0, v0);
        assert forall|i: u32| #[trigger] flag_at(w, i) == if i < values.len() { Some(values[i as int]) } else { None } by {
            let n = w.len() - 1;
            assert(w[n] == (n as u32, values[n]));
            assert(n <= u32::MAX);
            if i == n as u32 {
                assert(i as int == n);
            } else {
                assert(flag_at(w, i) == flag_at(w0, i));
                if i < values.len() {
                    assert(i < n);
                    assert(values[i as int] == v0[i as int]);
                }
            }
        }
    }
}

} // verus!
