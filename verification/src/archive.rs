//! Reading a safetensors archive: eight bytes that give the length of the
//! header, the header, and behind it the data of the tensors.

use vstd::prelude::*;
use vstd::slice::{slice_subrange, slice_to_vec};
use crate::error::Error;
use crate::parameters::{ParameterMap, ParameterModel};
use crate::tensor::{DType, Tensor, TensorModel};

verus! {

/// The longest header that an archive may have, in bytes.
pub const MAX_HEADER_LENGTH: u64 = 100_000_000;

/// What the header says of one tensor: the name of its element type, its
/// shape, and where its data begins and ends behind the header.
pub struct EntryModel {
    pub dtype: Seq<char>,
    pub shape: Seq<usize>,
    pub start: usize,
    pub end: usize,
}

/// What the `safetensors` crate reads from a header: an entry for each name,
/// where it accepts the header.
pub uninterp spec fn header_entries(header: Seq<u8>) -> Option<Map<Seq<char>, EntryModel>>;

/// One tensor of a header, as the `safetensors` crate read it.
pub struct HeaderEntry {
    name: String,
    dtype: String,
    shape: Vec<usize>,
    start: usize,
    end: usize,
}

impl View for HeaderEntry {
    type V = EntryModel;

    closed spec fn view(&self) -> EntryModel {
        EntryModel { dtype: self.dtype@, shape: self.shape@, start: self.start, end: self.end }
    }
}

spec fn listed(entries: Seq<HeaderEntry>, name: Seq<char>) -> bool {
    exists|i: int| 0 <= i < entries.len() && (#[trigger] entries[i]).name@ == name
}

spec fn place_of(entries: Seq<HeaderEntry>, name: Seq<char>) -> int {
    choose|i: int| 0 <= i < entries.len() && (#[trigger] entries[i]).name@ == name
}

spec fn listed_once(entries: Seq<HeaderEntry>) -> bool {
    forall|i: int, j: int|
        0 <= i < j < entries.len() ==> (#[trigger] entries[i]).name@ != (#[trigger] entries[j]).name@
}

spec fn entries_model(entries: Seq<HeaderEntry>) -> Map<Seq<char>, EntryModel> {
    Map::new(
        |name: Seq<char>| listed(entries, name),
        |name: Seq<char>| entries[place_of(entries, name)]@,
    )
}

/// With every name listed once, each entry is what the model holds under its
/// name.
proof fn lemma_place(entries: Seq<HeaderEntry>, i: int)
    requires
        listed_once(entries),
        0 <= i < entries.len(),
    ensures
        listed(entries, entries[i].name@),
        place_of(entries, entries[i].name@) == i,
        entries_model(entries)[entries[i].name@] == entries[i]@,
{
    let name = entries[i].name@;
    assert(listed(entries, name));
    let k = place_of(entries, name);
    if k < i {
        assert(entries[k].name@ != entries[i].name@);
    } else if i < k {
        assert(entries[i].name@ != entries[k].name@);
    }
}

/// Reads the header of an archive as the `safetensors` crate does: the bytes
/// must be UTF-8 (`std::str::from_utf8`) and JSON that
/// `safetensors::tensor::Metadata` accepts (`serde_json::from_str`); the
/// tensors are handed out with their names (`Metadata::tensors`), each with
/// the name of its element type as the crate writes it, its shape and its
/// offsets. The names are the keys of a hash map, so each comes once. The
/// contract names what was read; the order of the entries is left open.
#[verifier::external_body]
fn read_header(header: &[u8]) -> (r: Option<Vec<HeaderEntry>>)
    ensures
        match r {
            Some(entries) => listed_once(entries@) && header_entries(header@) == Some(
                entries_model(entries@),
            ),
            None => header_entries(header@) is None,
        },
{
    let text = std::str::from_utf8(header).ok()?;
    let metadata: safetensors::tensor::Metadata = serde_json::from_str(text).ok()?;
    let entries = metadata.tensors().into_iter().map(|(name, info)| HeaderEntry {
        name,
        dtype: info.dtype.to_string(),
        shape: info.shape.clone(),
        start: info.data_offsets.0,
        end: info.data_offsets.1,
    });
    Some(entries.collect())
}

/// The number that the first eight bytes hold, the lowest byte first.
pub open spec fn header_length(bytes: Seq<u8>) -> int
    recommends
        bytes.len() >= 8,
{
    bytes[0] + bytes[1] * 0x100 + bytes[2] * 0x1_0000 + bytes[3] * 0x100_0000 + bytes[4]
        * 0x1_0000_0000 + bytes[5] * 0x100_0000_0000 + bytes[6] * 0x1_0000_0000_0000 + bytes[7]
        * 0x100_0000_0000_0000
}

/// The element type that a header names. Only floating-point types are
/// parameters.
pub open spec fn element_type(name: Seq<char>) -> Option<DType> {
    if name == "F16"@ {
        Some(DType::F16)
    } else if name == "BF16"@ {
        Some(DType::BF16)
    } else if name == "F32"@ {
        Some(DType::F32)
    } else if name == "F64"@ {
        Some(DType::F64)
    } else {
        None
    }
}

/// The tensor that an entry describes, cut out of the data: its element type
/// must be a floating-point one, its offsets must lie in the data, and the
/// bytes between them must be as many as its shape and element type ask for.
pub open spec fn tensor_at(entry: EntryModel, data: Seq<u8>) -> Option<TensorModel> {
    match element_type(entry.dtype) {
        Some(dtype) => {
            let tensor = TensorModel {
                dtype,
                shape: entry.shape,
                data: data.subrange(entry.start as int, entry.end as int),
            };
            if entry.start <= entry.end <= data.len() && tensor.well_sized() {
                Some(tensor)
            } else {
                None
            }
        },
        None => None,
    }
}

/// Whether the entries reach the end of data of `length` bytes and not
/// beyond: no entry ends behind it, and unless there is no data one ends
/// there.
pub open spec fn fills(entries: Map<Seq<char>, EntryModel>, length: nat) -> bool {
    &&& forall|name: Seq<char>| entries.dom().contains(name) ==> (#[trigger] entries[name]).end <= length
    &&& length == 0 || exists|name: Seq<char>|
        entries.dom().contains(name) && (#[trigger] entries[name]).end == length
}

/// The tensors that data holds under the entries of a header, where every
/// entry describes one and the entries fill the data.
pub open spec fn tensors_of(entries: Map<Seq<char>, EntryModel>, data: Seq<u8>) -> Option<ParameterModel> {
    if fills(entries, data.len()) && forall|name: Seq<char>|
        entries.dom().contains(name) ==> tensor_at(#[trigger] entries[name], data) is Some {
        Some(
            Map::new(
                |name: Seq<char>| entries.dom().contains(name),
                |name: Seq<char>| tensor_at(entries[name], data)->0,
            ),
        )
    } else {
        None
    }
}

/// The map that an archive holds: the first eight bytes give the length of
/// the header, which is limited; the header follows, and the data of the
/// tensors fills the rest.
pub open spec fn decoded(bytes: Seq<u8>) -> Option<ParameterModel> {
    if bytes.len() < 8 {
        None
    } else if header_length(bytes) > MAX_HEADER_LENGTH || 8 + header_length(bytes) > bytes.len() {
        None
    } else {
        let data_at = 8 + header_length(bytes);
        match header_entries(bytes.subrange(8, data_at)) {
            Some(entries) => tensors_of(entries, bytes.skip(data_at)),
            None => None,
        }
    }
}

/// Reads the length of the header.
fn read_length(bytes: &[u8]) -> (n: u64)
    requires
        bytes@.len() >= 8,
    ensures
        n == header_length(bytes@),
{
    let b0: u64 = bytes[0] as u64;
    let b1: u64 = bytes[1] as u64;
    let b2: u64 = bytes[2] as u64;
    let b3: u64 = bytes[3] as u64;
    let b4: u64 = bytes[4] as u64;
    let b5: u64 = bytes[5] as u64;
    let b6: u64 = bytes[6] as u64;
    let b7: u64 = bytes[7] as u64;
    b0 + b1 * 0x100 + b2 * 0x1_0000 + b3 * 0x100_0000 + b4 * 0x1_0000_0000 + b5 * 0x100_0000_0000
        + b6 * 0x1_0000_0000_0000 + b7 * 0x100_0000_0000_0000
}

/// Reads the name of an element type.
fn read_element_type(name: &String) -> (r: Option<DType>)
    ensures
        r == element_type(name@),
{
    if *name == "F16".to_owned() {
        Some(DType::F16)
    } else if *name == "BF16".to_owned() {
        Some(DType::BF16)
    } else if *name == "F32".to_owned() {
        Some(DType::F32)
    } else if *name == "F64".to_owned() {
        Some(DType::F64)
    } else {
        None
    }
}

/// Cuts the tensor that `entry` describes out of the data, which begins at
/// `data_at`.
fn read_tensor(bytes: &[u8], data_at: usize, entry: &HeaderEntry) -> (r: Option<Tensor>)
    requires
        data_at <= bytes@.len(),
    ensures
        r is Some <==> tensor_at(entry@, bytes@.skip(data_at as int)) is Some,
        r is Some ==> r->0@ == tensor_at(entry@, bytes@.skip(data_at as int))->0,
{
    let dtype = match read_element_type(&entry.dtype) {
        Some(dtype) => dtype,
        None => {
            return None;
        },
    };
    let room: usize = bytes.len() - data_at;
    if entry.start > entry.end || entry.end > room {
        return None;
    }
    let part = slice_subrange(bytes, data_at + entry.start, data_at + entry.end);
    assert(part@ =~= bytes@.skip(data_at as int).subrange(entry.start as int, entry.end as int));
    Tensor::new(dtype, slice_to_vec(entry.shape.as_slice()), slice_to_vec(part))
}

/// Reads an archive.
pub fn read_archive(bytes: &[u8]) -> (r: Result<ParameterMap, Error>)
    ensures
        match r {
            Ok(map) => decoded(bytes@) == Some(map@),
            Err(e) => e == Error::DecodeError && decoded(bytes@) is None,
        },
{
    if bytes.len() < 8 {
        return Err(Error::DecodeError);
    }
    let length = read_length(bytes);
    if length > MAX_HEADER_LENGTH {
        return Err(Error::DecodeError);
    }
    let length: usize = length as usize;
    if length > bytes.len() - 8 {
        return Err(Error::DecodeError);
    }
    let data_at: usize = 8 + length;
    let room: usize = bytes.len() - data_at;
    let entries = match read_header(slice_subrange(bytes, 8, data_at)) {
        Some(entries) => entries,
        None => {
            return Err(Error::DecodeError);
        },
    };
    let ghost model = entries_model(entries@);
    let ghost data = bytes@.skip(data_at as int);
    let mut map = ParameterMap::new();
    let mut reached = false;
    let mut i: usize = 0;
    while i < entries.len()
        invariant
            i <= entries.len(),
            listed_once(entries@),
            model == entries_model(entries@),
            data_at + room == bytes@.len(),
            data == bytes@.skip(data_at as int),
            forall|k: int| 0 <= k < i ==> tensor_at((#[trigger] entries@[k])@, data) is Some,
            forall|name: Seq<char>|
                map@.dom().contains(name) <==> listed(entries@.take(i as int), name),
            forall|name: Seq<char>|
                #![trigger map@[name]]
                map@.dom().contains(name) ==> map@[name] == tensor_at(model[name], data)->0,
            reached <==> exists|k: int| 0 <= k < i && (#[trigger] entries@[k])@.end == room,
            decoded(bytes@) == tensors_of(model, data),
        decreases entries.len() - i,
    {
        let entry = &entries[i];
        let ghost name = entry.name@;
        proof {
            lemma_place(entries@, i as int);
        }
        let tensor = match read_tensor(bytes, data_at, entry) {
            Some(tensor) => tensor,
            None => {
                assert(model.dom().contains(name));
                assert(tensor_at(model[name], data) is None);
                return Err(Error::DecodeError);
            },
        };
        if entry.end == room {
            reached = true;
        }
        map.insert(entry.name.clone(), tensor);
        proof {
            let shorter = entries@.take(i as int);
            let longer = entries@.take(i + 1);
            assert forall|other: Seq<char>| listed(longer, other) <==> listed(shorter, other) || other
                == name by {
                if listed(longer, other) {
                    let k = place_of(longer, other);
                    if k < i {
                        assert(shorter[k].name@ == other);
                    }
                }
                if listed(shorter, other) {
                    let k = place_of(shorter, other);
                    assert(longer[k].name@ == other);
                }
                if other == name {
                    assert(longer[i as int].name@ == other);
                }
            }
        }
        i = i + 1;
    }
    proof {
        assert(entries@.take(i as int) =~= entries@);
        assert forall|name: Seq<char>| model.dom().contains(name) implies tensor_at(
            #[trigger] model[name],
            data,
        ) is Some && model[name].end <= room by {
            let k = place_of(entries@, name);
            lemma_place(entries@, k);
        }
    }
    if room != 0 && !reached {
        proof {
            assert forall|name: Seq<char>| model.dom().contains(name) implies (#[trigger] model[name]).end
                != room by {
                let k = place_of(entries@, name);
                lemma_place(entries@, k);
            }
        }
        return Err(Error::DecodeError);
    }
    proof {
        if room != 0 {
            let k = choose|k: int| 0 <= k < i && (#[trigger] entries@[k])@.end == room;
            lemma_place(entries@, k);
            assert(model.dom().contains(entries@[k].name@));
            assert(model[entries@[k].name@].end == room);
        }
        assert(fills(model, data.len()));
        assert(map@ =~= tensors_of(model, data)->0);
    }
    Ok(map)
}

} // verus!
