use vstd::prelude::*;

use super::{ErrorKind, ProtocolError};
use super::reader::{ProtocolReader, ReadProtocol};
use super::types::VarInt;
use super::types::serialize::{var_num_bytes, Serialize};

verus! {

/// A package of the protocol: its length field, its id, and its payload.
#[derive(Debug, Clone)]
pub struct Package {
    pub length: i32,
    pub id: i32,
    pub data: Vec<u8>,
}

/// The bytes of the items that serialize, one after the other; an item whose
/// serialization fails contributes nothing.
pub open spec fn serialized_concat<S: Serialize>(items: Seq<S>) -> Seq<u8>
    decreases items.len(),
{
    if items.len() == 0 {
        Seq::<u8>::empty()
    } else {
        serialized_concat(items.drop_last()) + match items.last().serialized() {
            Ok(b) => b,
            Err(_) => Seq::<u8>::empty(),
        }
    }
}

/// How many payload bytes follow the id of a package whose length field is
/// `length` and whose id is `id`: the difference of the two, plus one.
pub open spec fn body_len_outcome(length: i32, id: i32) -> Result<nat, ProtocolError> {
    if length - id < 0 {
        Err(ProtocolError(ErrorKind::NegativeLength))
    } else {
        Ok((length - id + 1) as nat)
    }
}

/// How many payload bytes to read after the id of a package: the length field
/// less the id, plus one. A negative difference is refused.
pub fn package_body_len(length: i32, id: i32) -> (r: Result<usize, ProtocolError>)
    requires
        i32::MIN <= length - id <= i32::MAX,
    ensures
        match body_len_outcome(length, id) {
            Ok(n) => r matches Ok(u) && u == n,
            Err(e) => r == Err::<usize, ProtocolError>(e),
        },
{
    let diff: i32 = length - id;
    if diff < 0 {
        return Err(ProtocolError(ErrorKind::NegativeLength));
    }
    Ok(diff as usize + 1)
}

impl Package {
    /// The payload.
    pub open spec fn payload(&self) -> Seq<u8> {
        self.data@
    }

    /// A package of the given id and length field, carrying `data`.
    pub fn new(id: i32, length: i32, data: Vec<u8>) -> (p: Package)
        ensures
            p.id == id,
            p.length == length,
            p.payload() == data@,
    {
        Package { length, id, data }
    }

    /// A package of the given id carrying `data`; its length field counts the
    /// bytes of the id and of the data.
    pub fn try_new(id: i32, data: Vec<u8>) -> (r: Result<Package, ProtocolError>)
        requires
            id >= 0,
            var_num_bytes(id as nat).len() + data.len() <= i32::MAX,
        ensures
            r matches Ok(p) && p.id == id && p.length == var_num_bytes(id as nat).len() + data.len()
                && p.payload() == data@,
    {
        let id_bytes = match VarInt(id).serialize() {
            Ok(b) => b,
            Err(e) => return Err(e),
        };
        let length: i32 = id_bytes.len() as i32 + data.len() as i32;
        Ok(Package { length, id, data })
    }

    /// A package of the given id carrying the bytes of the items that
    /// serialize, one after the other; items whose serialization fails are
    /// left out.
    pub fn from_serializiable_iter<S: Serialize>(id: i32, data: Vec<S>) -> (r: Result<
        Package,
        ProtocolError,
    >)
        requires
            id >= 0,
            forall|i: int| 0 <= i < data.len() ==> #[trigger] data[i].can_serialize(),
            var_num_bytes(id as nat).len() + serialized_concat(data@).len() <= i32::MAX,
        ensures
            r matches Ok(p) && p.id == id && p.length == var_num_bytes(id as nat).len()
                + serialized_concat(data@).len() && p.payload() == serialized_concat(data@),
    {
        let mut bytes: Vec<u8> = Vec::new();
        let mut i: usize = 0;
        assert(data@.take(0) =~= Seq::<S>::empty());
        while i < data.len()
            invariant
                i <= data.len(),
                forall|k: int| 0 <= k < data.len() ==> #[trigger] data[k].can_serialize(),
                bytes@ == serialized_concat(data@.take(i as int)),
            decreases data.len() - i,
        {
            assert(data@.take(i + 1).drop_last() =~= data@.take(i as int));
            assert(data@.take(i + 1).last() == data@[i as int]);
            match data[i].serialize() {
                Ok(b) => {
                    let mut b = b;
                    bytes.append(&mut b);
                },
                Err(_) => {},
            }
            i = i + 1;
        }
        assert(data@.take(data.len() as int) =~= data@);
        Package::try_new(id, bytes)
    }

    /// A package of the given id carrying the bytes of `data`; where `data`
    /// does not serialize, the error of its serialization.
    pub fn from_serializiable<S: Serialize>(id: i32, data: S) -> (r: Result<Package, ProtocolError>)
        requires
            data.can_serialize(),
            data.serialized() matches Ok(b) ==> id >= 0 && var_num_bytes(id as nat).len()
                + b.len() <= i32::MAX,
        ensures
            match data.serialized() {
                Ok(b) => r matches Ok(p) && p.id == id && p.length == var_num_bytes(id as nat).len()
                    + b.len() && p.payload() == b,
                Err(e) => r == Err::<Package, ProtocolError>(e),
            },
    {
        match data.serialize() {
            Ok(bytes) => Package::try_new(id, bytes),
            Err(e) => Err(e),
        }
    }

    /// A reader over the payload, from its first byte.
    pub fn into_reader(self) -> (r: ProtocolReader)
        ensures
            r.remaining() == self.payload(),
    {
        ProtocolReader::new(self.data)
    }
}

impl Serialize for Package {
    /// A negative length or id would never finish serializing.
    open spec fn can_serialize(&self) -> bool {
        self.length >= 0 && self.id >= 0
    }

    open spec fn serialized(&self) -> Result<Seq<u8>, ProtocolError> {
        Ok(var_num_bytes(self.length as nat) + var_num_bytes(self.id as nat) + self.payload())
    }

    fn serialize(&self) -> (r: Result<Vec<u8>, ProtocolError>) {
        let mut length_bytes = match VarInt(self.length).serialize() {
            Ok(b) => b,
            Err(e) => return Err(e),
        };
        let mut id_bytes = match VarInt(self.id).serialize() {
            Ok(b) => b,
            Err(e) => return Err(e),
        };
        let mut data: Vec<u8> = self.data.clone();
        let mut out: Vec<u8> = Vec::new();
        out.append(&mut length_bytes);
        out.append(&mut id_bytes);
        out.append(&mut data);
        Ok(out)
    }
}

} // verus!
