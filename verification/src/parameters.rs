use vstd::prelude::*;
use crate::archive::{decoded, read_archive};
use crate::error::Error;
use crate::tensor::{DType, Tensor, TensorModel};

verus! {

/// What a parameter map is: a tensor for each of finitely many names.
pub type ParameterModel = Map<Seq<char>, TensorModel>;

/// Whether `reply` can be added to the sum `acc`: the tensors that both hold
/// under one name agree in element type and shape.
pub open spec fn mergeable(acc: ParameterModel, reply: ParameterModel) -> bool {
    forall|name: Seq<char>|
        acc.dom().contains(name) && reply.dom().contains(name) ==> (#[trigger] acc[name]).compatible(
            reply[name],
        )
}

/// The sum of `acc` and `reply`: under a name that both hold, the sum of the
/// two tensors; under a name that one of them holds, its tensor.
pub open spec fn merged(acc: ParameterModel, reply: ParameterModel) -> ParameterModel {
    Map::new(
        |name: Seq<char>| acc.dom().contains(name) || reply.dom().contains(name),
        |name: Seq<char>|
            if acc.dom().contains(name) {
                if reply.dom().contains(name) {
                    acc[name].plus(reply[name])
                } else {
                    acc[name]
                }
            } else {
                reply[name]
            },
    )
}

/// The map with every tensor scaled by the reciprocal of `count`.
pub open spec fn scaled_down(map: ParameterModel, count: i64) -> ParameterModel {
    Map::new(|name: Seq<char>| map.dom().contains(name), |name: Seq<char>| map[name].scaled_down(count))
}

/// The bytes of the safetensors archive that holds this map, where the
/// `safetensors` crate can write one.
pub uninterp spec fn encoded(map: ParameterModel) -> Option<Seq<u8>>;

/// A named tensor.
#[derive(Debug)]
struct Parameter {
    name: String,
    tensor: Tensor,
}

/// Model parameters: a tensor for each name, every name once.
#[derive(Debug)]
pub struct ParameterMap {
    entries: Vec<Parameter>,
}

spec fn has_name(entries: Seq<Parameter>, name: Seq<char>) -> bool {
    exists|i: int| 0 <= i < entries.len() && (#[trigger] entries[i]).name@ == name
}

spec fn index_of(entries: Seq<Parameter>, name: Seq<char>) -> int {
    choose|i: int| 0 <= i < entries.len() && (#[trigger] entries[i]).name@ == name
}

spec fn distinct_names(entries: Seq<Parameter>) -> bool {
    forall|i: int, j: int|
        0 <= i < j < entries.len() ==> (#[trigger] entries[i]).name@ != (#[trigger] entries[j]).name@
}

spec fn well_sized_tensors(entries: Seq<Parameter>) -> bool {
    forall|i: int| 0 <= i < entries.len() ==> (#[trigger] entries[i]).tensor@.well_sized()
}

spec fn model_of(entries: Seq<Parameter>) -> ParameterModel {
    Map::new(
        |name: Seq<char>| has_name(entries, name),
        |name: Seq<char>| entries[index_of(entries, name)].tensor@,
    )
}

/// With distinct names, each entry is what the model holds under its name.
proof fn lemma_entry(entries: Seq<Parameter>, i: int)
    requires
        distinct_names(entries),
        0 <= i < entries.len(),
    ensures
        model_of(entries).dom().contains(entries[i].name@),
        model_of(entries)[entries[i].name@] == entries[i].tensor@,
        index_of(entries, entries[i].name@) == i,
{
    let name = entries[i].name@;
    assert(has_name(entries, name));
    let k = index_of(entries, name);
    assert(0 <= k < entries.len() && entries[k].name@ == name);
    if k < i {
        assert(entries[k].name@ != entries[i].name@);
    } else if i < k {
        assert(entries[i].name@ != entries[k].name@);
    }
}

/// Writes the map as a safetensors archive: every entry becomes a
/// `safetensors::tensor::TensorView` (which `TensorView::new` accepts, the
/// data being well sized) and `safetensors::serialize` writes them, sorted by
/// element type and name, so that the bytes depend on the map alone. The
/// contract only names the result; `None` stands for an archive that the
/// crate refuses to write.
#[verifier::external_body]
fn write_archive(map: &ParameterMap) -> (bytes: Option<Vec<u8>>)
    requires
        map.well_formed(),
    ensures
        match bytes {
            Some(b) => encoded(map@) == Some(b@),
            None => encoded(map@) is None,
        },
{
    let views = map.entries.iter().map(|p| {
        let dtype = match p.tensor.dtype {
            DType::F16 => safetensors::Dtype::F16,
            DType::BF16 => safetensors::Dtype::BF16,
            DType::F32 => safetensors::Dtype::F32,
            DType::F64 => safetensors::Dtype::F64,
        };
        let view = safetensors::tensor::TensorView::new(dtype, p.tensor.shape.clone(), &p.tensor.data);
        (p.name.as_str(), view.unwrap())
    });
    safetensors::serialize(views, None).ok()
}

impl View for ParameterMap {
    type V = ParameterModel;

    closed spec fn view(&self) -> ParameterModel {
        model_of(self.entries@)
    }
}

impl ParameterMap {
    /// What holds of every parameter map: no name occurs twice, and every
    /// tensor is well sized.
    #[verifier::type_invariant]
    pub closed spec fn well_formed(self) -> bool {
        distinct_names(self.entries@) && well_sized_tensors(self.entries@)
    }

    /// The empty map.
    pub fn new() -> (map: ParameterMap)
        ensures
            map@ == Map::<Seq<char>, TensorModel>::empty(),
    {
        let map = ParameterMap { entries: Vec::new() };
        assert(map@ =~= Map::<Seq<char>, TensorModel>::empty());
        map
    }

    /// Number of names.
    pub fn len(&self) -> (n: usize)
        ensures
            n == self@.dom().len(),
            self@.dom().finite(),
    {
        proof {
            use_type_invariant(self);
            lemma_model_len(self.entries@);
        }
        self.entries.len()
    }

    /// Where `name` stands among the entries.
    fn position(&self, name: &String) -> (r: Option<usize>)
        ensures
            match r {
                Some(i) => i < self.entries.len() && self.entries@[i as int].name@ == name@,
                None => !has_name(self.entries@, name@),
            },
    {
        let mut i: usize = 0;
        while i < self.entries.len()
            invariant
                i <= self.entries.len(),
                forall|k: int| 0 <= k < i ==> (#[trigger] self.entries@[k]).name@ != name@,
            decreases self.entries.len() - i,
        {
            if self.entries[i].name == *name {
                return Some(i);
            }
            i = i + 1;
        }
        None
    }

    /// The tensor under `name`, if the map holds one.
    pub fn get(&self, name: &String) -> (r: Option<&Tensor>)
        ensures
            r is Some <==> self@.dom().contains(name@),
            r is Some ==> r->0@ == self@[name@],
    {
        proof {
            use_type_invariant(self);
        }
        match self.position(name) {
            Some(i) => {
                proof {
                    lemma_entry(self.entries@, i as int);
                }
                Some(&self.entries[i].tensor)
            },
            None => None,
        }
    }

    /// Whether the map holds a tensor under `name`.
    pub fn contains(&self, name: &String) -> (b: bool)
        ensures
            b == self@.dom().contains(name@),
    {
        self.position(name).is_some()
    }

    /// Puts `tensor` under `name`, in place of what stood there.
    pub fn insert(&mut self, name: String, tensor: Tensor)
        ensures
            final(self)@ == old(self)@.insert(name@, tensor@),
    {
        proof {
            use_type_invariant(&*self);
            use_type_invariant(&tensor);
        }
        let found = self.position(&name);
        let mut entries: Vec<Parameter> = Vec::new();
        std::mem::swap(&mut entries, &mut self.entries);
        let ghost before = entries@;
        let ghost name_model = name@;
        let ghost tensor_model = tensor@;
        match found {
            Some(i) => {
                entries.set(i, Parameter { name, tensor });
                proof {
                    lemma_replaced(before, entries@, i as int);
                }
            },
            None => {
                entries.push(Parameter { name, tensor });
                proof {
                    assert(entries@.drop_last() =~= before);
                    lemma_pushed(before, entries@);
                }
            },
        }
        self.entries = entries;
    }

    /// The names of the map, each once.
    pub fn names(&self) -> (r: Vec<String>)
        ensures
            r@.len() == self@.dom().len(),
            forall|name: Seq<char>|
                self@.dom().contains(name) <==> exists|i: int|
                    0 <= i < r@.len() && (#[trigger] r@[i])@ == name,
            forall|i: int, j: int| 0 <= i < j < r@.len() ==> (#[trigger] r@[i])@ != (#[trigger] r@[j])@,
    {
        proof {
            use_type_invariant(self);
            lemma_model_len(self.entries@);
        }
        let mut r: Vec<String> = Vec::new();
        let mut i: usize = 0;
        while i < self.entries.len()
            invariant
                i <= self.entries.len(),
                r@.len() == i,
                forall|k: int| 0 <= k < i ==> (#[trigger] r@[k])@ == self.entries@[k].name@,
            decreases self.entries.len() - i,
        {
            r.push(self.entries[i].name.clone());
            i = i + 1;
        }
        proof {
            assert forall|name: Seq<char>|
                self@.dom().contains(name) <==> exists|i: int|
                    0 <= i < r@.len() && (#[trigger] r@[i])@ == name by {
                if self@.dom().contains(name) {
                    let k = index_of(self.entries@, name);
                    assert(r@[k]@ == name);
                }
                if exists|i: int| 0 <= i < r@.len() && (#[trigger] r@[i])@ == name {
                    let k = choose|i: int| 0 <= i < r@.len() && (#[trigger] r@[i])@ == name;
                    assert(self.entries@[k].name@ == name);
                }
            }
            assert forall|i: int, j: int| 0 <= i < j < r@.len() implies (#[trigger] r@[i])@ != (
            #[trigger] r@[j])@ by {
                assert(self.entries@[i].name@ != self.entries@[j].name@);
            }
        }
        r
    }

    /// Adds `reply` to the sum `self`, name by name. `None` exactly when a
    /// tensor of `reply` cannot be added to the tensor that the sum holds
    /// under its name.
    pub fn merge(self, reply: &ParameterMap) -> (r: Option<ParameterMap>)
        ensures
            r is Some <==> mergeable(self@, reply@),
            r is Some ==> r->0@ == merged(self@, reply@),
    {
        proof {
            use_type_invariant(&self);
            use_type_invariant(reply);
        }
        let ghost start = self@;
        let mut acc = self;
        let mut j: usize = 0;
        while j < reply.entries.len()
            invariant
                j <= reply.entries.len(),
                reply.well_formed(),
                start == self@,
                forall|name: Seq<char>|
                    acc@.dom().contains(name) <==> start.dom().contains(name) || has_name(
                        reply.entries@.take(j as int),
                        name,
                    ),
                forall|name: Seq<char>|
                    #![trigger acc@[name]]
                    acc@.dom().contains(name) ==> acc@[name] == if has_name(
                        reply.entries@.take(j as int),
                        name,
                    ) {
                        if start.dom().contains(name) {
                            start[name].plus(reply@[name])
                        } else {
                            reply@[name]
                        }
                    } else {
                        start[name]
                    },
                forall|k: int|
                    0 <= k < j && start.dom().contains((#[trigger] reply.entries@[k]).name@)
                        ==> start[reply.entries@[k].name@].compatible(reply.entries@[k].tensor@),
            decreases reply.entries.len() - j,
        {
            let ghost before = acc@;
            let ghost name = reply.entries@[j as int].name@;
            proof {
                lemma_entry(reply.entries@, j as int);
                lemma_take_step(reply.entries@, j as int);
                assert(!has_name(reply.entries@.take(j as int), name)) by {
                    if has_name(reply.entries@.take(j as int), name) {
                        let k = index_of(reply.entries@.take(j as int), name);
                        assert(reply.entries@.take(j as int)[k] == reply.entries@[k]);
                        assert(reply.entries@[k].name@ != reply.entries@[j as int].name@);
                    }
                }
            }
            let sum = match acc.get(&reply.entries[j].name) {
                Some(existing) => match existing.add(&reply.entries[j].tensor) {
                    Some(sum) => sum,
                    None => {
                        proof {
                            assert(start.dom().contains(name));
                            assert(reply@.dom().contains(name));
                            assert(!start[name].compatible(reply@[name]));
                            assert(!mergeable(start, reply@));
                        }
                        return None;
                    },
                },
                None => reply.entries[j].tensor.clone(),
            };
            acc.insert(reply.entries[j].name.clone(), sum);
            proof {
                assert forall|other: Seq<char>|
                    has_name(reply.entries@.take(j + 1), other) <==> has_name(
                        reply.entries@.take(j as int),
                        other,
                    ) || other == name by {
                    lemma_take_step_name(reply.entries@, j as int, other);
                }
            }
            j = j + 1;
        }
        proof {
            assert(reply.entries@.take(j as int) =~= reply.entries@);
            assert forall|name: Seq<char>|
                start.dom().contains(name) && reply@.dom().contains(name) implies (
            #[trigger] start[name]).compatible(reply@[name]) by {
                let k = index_of(reply.entries@, name);
                lemma_entry(reply.entries@, k);
            }
            assert(acc@ =~= merged(start, reply@));
        }
        Some(acc)
    }

    /// The map with every tensor scaled by the reciprocal of `count`.
    pub fn scale_down(&self, count: i64) -> (r: ParameterMap)
        ensures
            r@ == scaled_down(self@, count),
    {
        proof {
            use_type_invariant(self);
        }
        let mut entries: Vec<Parameter> = Vec::new();
        let mut i: usize = 0;
        while i < self.entries.len()
            invariant
                i <= self.entries.len(),
                entries@.len() == i,
                forall|k: int|
                    0 <= k < i ==> (#[trigger] entries@[k]).name@ == self.entries@[k].name@
                        && entries@[k].tensor@ == self.entries@[k].tensor@.scaled_down(count)
                        && entries@[k].tensor@.well_sized(),
            decreases self.entries.len() - i,
        {
            let name = self.entries[i].name.clone();
            let tensor = self.entries[i].tensor.scale_down(count);
            proof {
                use_type_invariant(&tensor);
            }
            entries.push(Parameter { name, tensor });
            i = i + 1;
        }
        let r = ParameterMap { entries };
        proof {
            assert forall|name: Seq<char>| r@.dom().contains(name) <==> self@.dom().contains(name) by {
                if has_name(r.entries@, name) {
                    let k = index_of(r.entries@, name);
                    assert(self.entries@[k].name@ == name);
                }
                if has_name(self.entries@, name) {
                    let k = index_of(self.entries@, name);
                    assert(r.entries@[k].name@ == name);
                }
            }
            assert forall|name: Seq<char>| r@.dom().contains(name) implies r@[name] == self@[name].scaled_down(
                count,
            ) by {
                let k = index_of(r.entries@, name);
                lemma_entry(r.entries@, k);
                lemma_entry(self.entries@, k);
            }
            assert(r@ =~= scaled_down(self@, count));
        }
        r
    }

    /// The map as the bytes of a safetensors archive.
    pub fn encode(&self) -> (r: Result<Vec<u8>, Error>)
        ensures
            match r {
                Ok(bytes) => encoded(self@) == Some(bytes@),
                Err(e) => e == Error::EncodeError && encoded(self@) is None,
            },
    {
        proof {
            use_type_invariant(self);
        }
        match write_archive(self) {
            Some(bytes) => Ok(bytes),
            None => Err(Error::EncodeError),
        }
    }

    /// The map that a safetensors archive holds.
    pub fn decode(bytes: &[u8]) -> (r: Result<ParameterMap, Error>)
        ensures
            match r {
                Ok(map) => decoded(bytes@) == Some(map@),
                Err(e) => e == Error::DecodeError && decoded(bytes@) is None,
            },
    {
        read_archive(bytes)
    }
}

impl Clone for ParameterMap {
    /// A copy of the map.
    fn clone(&self) -> (r: ParameterMap)
        ensures
            r@ == self@,
    {
        proof {
            use_type_invariant(self);
        }
        let mut entries: Vec<Parameter> = Vec::new();
        let mut i: usize = 0;
        while i < self.entries.len()
            invariant
                i <= self.entries.len(),
                entries@.len() == i,
                forall|k: int|
                    0 <= k < i ==> (#[trigger] entries@[k]).name@ == self.entries@[k].name@
                        && entries@[k].tensor@ == self.entries@[k].tensor@,
            decreases self.entries.len() - i,
        {
            let name = self.entries[i].name.clone();
            let tensor = self.entries[i].tensor.clone();
            entries.push(Parameter { name, tensor });
            i = i + 1;
        }
        proof {
            lemma_same_entries(self.entries@, entries@);
        }
        ParameterMap { entries }
    }
}

/// The names of a list and of the list without its last entry.
proof fn lemma_take_step(entries: Seq<Parameter>, j: int)
    requires
        0 <= j < entries.len(),
    ensures
        entries.take(j + 1) == entries.take(j).push(entries[j]),
{
    assert(entries.take(j + 1) =~= entries.take(j).push(entries[j]));
}

/// A name stands among the first `j + 1` entries exactly when it stands among
/// the first `j` or is the name of entry `j`.
proof fn lemma_take_step_name(entries: Seq<Parameter>, j: int, name: Seq<char>)
    requires
        0 <= j < entries.len(),
    ensures
        has_name(entries.take(j + 1), name) <==> has_name(entries.take(j), name) || name
            == entries[j].name@,
{
    let longer = entries.take(j + 1);
    let shorter = entries.take(j);
    if has_name(longer, name) {
        let k = index_of(longer, name);
        if k < j {
            assert(shorter[k].name@ == name);
        }
    }
    if has_name(shorter, name) {
        let k = index_of(shorter, name);
        assert(longer[k].name@ == name);
    }
    if name == entries[j].name@ {
        assert(longer[j].name@ == name);
    }
}

/// Two lists with the same names and tensors, the first with distinct names,
/// stand for one map.
proof fn lemma_same_entries(a: Seq<Parameter>, b: Seq<Parameter>)
    requires
        distinct_names(a),
        well_sized_tensors(a),
        a.len() == b.len(),
        forall|k: int|
            0 <= k < a.len() ==> (#[trigger] b[k]).name@ == a[k].name@ && b[k].tensor@ == a[k].tensor@,
    ensures
        distinct_names(b),
        well_sized_tensors(b),
        model_of(b) == model_of(a),
{
    assert forall|i: int, j: int| 0 <= i < j < b.len() implies (#[trigger] b[i]).name@ != (
    #[trigger] b[j]).name@ by {
        assert(a[i].name@ != a[j].name@);
    }
    assert forall|i: int| 0 <= i < b.len() implies (#[trigger] b[i]).tensor@.well_sized() by {
        assert(a[i].tensor@.well_sized());
    }
    assert forall|name: Seq<char>| has_name(a, name) <==> has_name(b, name) by {
        if has_name(a, name) {
            let k = index_of(a, name);
            assert(b[k].name@ == name);
        }
        if has_name(b, name) {
            let k = index_of(b, name);
            assert(a[k].name@ == name);
        }
    }
    assert forall|name: Seq<char>| has_name(a, name) implies model_of(a)[name] == model_of(b)[name] by {
        let k = index_of(a, name);
        lemma_entry(a, k);
        lemma_entry(b, k);
    }
    assert(model_of(b) =~= model_of(a));
}

/// Replacing the tensor of entry `i` puts it under that entry's name.
proof fn lemma_replaced(before: Seq<Parameter>, after: Seq<Parameter>, i: int)
    requires
        distinct_names(before),
        well_sized_tensors(before),
        0 <= i < before.len(),
        after.len() == before.len(),
        after[i].name@ == before[i].name@,
        after[i].tensor@.well_sized(),
        forall|k: int| 0 <= k < before.len() && k != i ==> after[k] == before[k],
    ensures
        distinct_names(after),
        well_sized_tensors(after),
        model_of(after) == model_of(before).insert(after[i].name@, after[i].tensor@),
{
    assert forall|k: int| 0 <= k < after.len() implies (#[trigger] after[k]).name@ == before[k].name@ by {}
    assert forall|a: int, b: int| 0 <= a < b < after.len() implies (#[trigger] after[a]).name@ != (
    #[trigger] after[b]).name@ by {
        assert(before[a].name@ != before[b].name@);
    }
    assert forall|k: int| 0 <= k < after.len() implies (#[trigger] after[k]).tensor@.well_sized() by {
        if k != i {
            assert(before[k].tensor@.well_sized());
        }
    }
    let target = model_of(before).insert(after[i].name@, after[i].tensor@);
    assert forall|name: Seq<char>| has_name(after, name) <==> target.dom().contains(name) by {
        if has_name(after, name) {
            let k = index_of(after, name);
            assert(before[k].name@ == name);
        }
        if has_name(before, name) {
            let k = index_of(before, name);
            assert(after[k].name@ == name);
        }
        if name == after[i].name@ {
            assert(after[i].name@ == name);
        }
    }
    assert forall|name: Seq<char>| has_name(after, name) implies model_of(after)[name] == target[name] by {
        let k = index_of(after, name);
        lemma_entry(after, k);
        lemma_entry(before, k);
    }
    assert(model_of(after) =~= target);
}

/// Appending an entry with a new name puts its tensor under that name.
proof fn lemma_pushed(before: Seq<Parameter>, after: Seq<Parameter>)
    requires
        distinct_names(before),
        well_sized_tensors(before),
        after.len() == before.len() + 1,
        after.drop_last() == before,
        !has_name(before, after.last().name@),
        after.last().tensor@.well_sized(),
    ensures
        distinct_names(after),
        well_sized_tensors(after),
        model_of(after) == model_of(before).insert(after.last().name@, after.last().tensor@),
{
    let n = before.len() as int;
    assert forall|k: int| 0 <= k < n implies (#[trigger] after[k]) == before[k] by {
        assert(after.drop_last()[k] == after[k]);
    }
    assert forall|a: int, b: int| 0 <= a < b < after.len() implies (#[trigger] after[a]).name@ != (
    #[trigger] after[b]).name@ by {
        if b < n {
            assert(before[a].name@ != before[b].name@);
        } else {
            assert(before[a].name@ == after[a].name@);
        }
    }
    assert forall|k: int| 0 <= k < after.len() implies (#[trigger] after[k]).tensor@.well_sized() by {
        if k < n {
            assert(before[k].tensor@.well_sized());
        }
    }
    let target = model_of(before).insert(after.last().name@, after.last().tensor@);
    assert forall|name: Seq<char>| has_name(after, name) <==> target.dom().contains(name) by {
        if has_name(after, name) {
            let k = index_of(after, name);
            if k < n {
                assert(before[k].name@ == name);
            }
        }
        if has_name(before, name) {
            let k = index_of(before, name);
            assert(after[k].name@ == name);
        }
        if name == after.last().name@ {
            assert(after[n].name@ == name);
        }
    }
    assert forall|name: Seq<char>| has_name(after, name) implies model_of(after)[name] == target[name] by {
        let k = index_of(after, name);
        lemma_entry(after, k);
        if k < n {
            lemma_entry(before, k);
        }
    }
    assert(model_of(after) =~= target);
}

/// A list of entries with distinct names stands for a map of as many names.
proof fn lemma_model_len(entries: Seq<Parameter>)
    requires
        distinct_names(entries),
        well_sized_tensors(entries),
    ensures
        model_of(entries).dom().finite(),
        model_of(entries).dom().len() == entries.len(),
    decreases entries.len(),
{
    if entries.len() == 0 {
        assert(model_of(entries).dom() =~= Set::<Seq<char>>::empty());
    } else {
        let shorter = entries.drop_last();
        assert forall|i: int, j: int| 0 <= i < j < shorter.len() implies (#[trigger] shorter[i]).name@ != (
        #[trigger] shorter[j]).name@ by {
            assert(entries[i].name@ != entries[j].name@);
        }
        assert forall|k: int| 0 <= k < shorter.len() implies (#[trigger] shorter[k]).tensor@.well_sized() by {
            assert(entries[k].tensor@.well_sized());
        }
        lemma_model_len(shorter);
        assert(!has_name(shorter, entries.last().name@)) by {
            if has_name(shorter, entries.last().name@) {
                let k = index_of(shorter, entries.last().name@);
                assert(entries[k].name@ != entries[entries.len() - 1].name@);
            }
        }
        lemma_pushed(shorter, entries);
        assert(model_of(entries).dom() =~= model_of(shorter).dom().insert(entries.last().name@));
    }
}

} // verus!
