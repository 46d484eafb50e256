use vstd::prelude::*;
use vstd::slice::slice_to_vec;

verus! {

/// Element type of a tensor. Parameters are floating-point numbers.
#[derive(Clone, Copy, Debug, PartialEq, Eq, Structural)]
pub enum DType {
    /// IEEE half precision, 2 bytes.
    F16,
    /// Brain floating point, 2 bytes.
    BF16,
    /// IEEE single precision, 4 bytes.
    F32,
    /// IEEE double precision, 8 bytes.
    F64,
}

impl DType {
    /// Bytes that one element takes.
    pub open spec fn spec_size(self) -> usize {
        match self {
            DType::F16 => 2,
            DType::BF16 => 2,
            DType::F32 => 4,
            DType::F64 => 8,
        }
    }

    /// Bytes that one element takes.
    #[verifier::when_used_as_spec(spec_size)]
    pub fn size(self) -> (n: usize)
        ensures
            n == self.spec_size(),
    {
        match self {
            DType::F16 => 2,
            DType::BF16 => 2,
            DType::F32 => 4,
            DType::F64 => 8,
        }
    }
}

/// What a tensor is: an element type, the extent of each dimension, and the
/// elements in row-major order, each in little-endian bytes.
pub struct TensorModel {
    pub dtype: DType,
    pub shape: Seq<usize>,
    pub data: Seq<u8>,
}

/// Number of elements of a tensor with this shape: the product of the extents.
pub open spec fn element_count(shape: Seq<usize>) -> nat
    decreases shape.len(),
{
    if shape.len() == 0 {
        1
    } else {
        element_count(shape.drop_last()) * (shape.last() as nat)
    }
}

/// Whether the element count of every leading part of the shape fits a
/// machine word.
pub open spec fn shape_in_range(shape: Seq<usize>) -> bool
    decreases shape.len(),
{
    shape.len() == 0 || (shape_in_range(shape.drop_last()) && element_count(shape) <= usize::MAX)
}

impl TensorModel {
    /// Whether the data holds exactly the elements that the shape asks for,
    /// and their number of bits fits a machine word.
    pub open spec fn well_sized(self) -> bool {
        &&& shape_in_range(self.shape)
        &&& element_count(self.shape) * self.dtype.spec_size() * 8 <= usize::MAX
        &&& self.data.len() == element_count(self.shape) * self.dtype.spec_size()
    }

    /// Whether two tensors can be added element by element.
    pub open spec fn compatible(self, other: TensorModel) -> bool {
        self.dtype == other.dtype && self.shape == other.shape
    }

    /// The sum, element by element, of two compatible tensors.
    pub open spec fn plus(self, other: TensorModel) -> TensorModel {
        TensorModel {
            dtype: self.dtype,
            shape: self.shape,
            data: elementwise_sum(self.dtype, self.data, other.data),
        }
    }

    /// The tensor with every element multiplied by the reciprocal of `count`.
    pub open spec fn scaled_down(self, count: i64) -> TensorModel {
        TensorModel {
            dtype: self.dtype,
            shape: self.shape,
            data: elementwise_scaled(self.dtype, self.data, count),
        }
    }
}

/// The bytes that candle's CPU backend computes for the sum, element by
/// element, of two buffers of equally many elements of one type.
pub uninterp spec fn elementwise_sum(dtype: DType, left: Seq<u8>, right: Seq<u8>) -> Seq<u8>;

/// The bytes that candle's CPU backend computes when it multiplies every
/// element of a buffer by the reciprocal of a count, the count being a 64-bit
/// signed integer.
pub uninterp spec fn elementwise_scaled(dtype: DType, data: Seq<u8>, count: i64) -> Seq<u8>;

/// A dense tensor: element type, shape, and the elements as bytes.
#[derive(Debug)]
pub struct Tensor {
    pub(crate) dtype: DType,
    pub(crate) shape: Vec<usize>,
    pub(crate) data: Vec<u8>,
}

impl View for Tensor {
    type V = TensorModel;

    closed spec fn view(&self) -> TensorModel {
        TensorModel { dtype: self.dtype, shape: self.shape@, data: self.data@ }
    }
}

/// A leading part of a shape in range is in range.
proof fn lemma_prefix_in_range(shape: Seq<usize>, n: int)
    requires
        shape_in_range(shape),
        0 <= n <= shape.len(),
    ensures
        shape_in_range(shape.take(n)),
    decreases shape.len(),
{
    if n == shape.len() {
        assert(shape.take(n) =~= shape);
    } else {
        lemma_prefix_in_range(shape.drop_last(), n);
        assert(shape.drop_last().take(n) =~= shape.take(n));
    }
}

/// Adds two buffers through candle: each is loaded as a flat tensor of
/// `count` elements with `Tensor::from_raw_buffer` on the CPU, the two are
/// added with `Tensor::add`, and the sum's bytes are read back through
/// candle's `safetensors::View`. Each buffer holds `count` elements, so none
/// of these calls fails. The contract names the resulting bytes and states
/// their number.
#[verifier::external_body]
fn sum_through_candle(dtype: DType, left: &Vec<u8>, right: &Vec<u8>, count: usize) -> (data: Vec<u8>)
    requires
        left@.len() == count * dtype.spec_size(),
        right@.len() == left@.len(),
    ensures
        data@ == elementwise_sum(dtype, left@, right@),
        data@.len() == left@.len(),
{
    let dtype = match dtype {
        DType::F16 => candle_core::DType::F16,
        DType::BF16 => candle_core::DType::BF16,
        DType::F32 => candle_core::DType::F32,
        DType::F64 => candle_core::DType::F64,
    };
    let cpu = candle_core::Device::Cpu;
    let a = candle_core::Tensor::from_raw_buffer(left, dtype, &[count], &cpu).unwrap();
    let b = candle_core::Tensor::from_raw_buffer(right, dtype, &[count], &cpu).unwrap();
    let sum = a.add(&b).unwrap();
    safetensors::View::data(&sum).into_owned()
}

/// Scales a buffer by the reciprocal of a count through candle: the buffer is
/// loaded as a flat tensor of `elements` elements with
/// `Tensor::from_raw_buffer`; the count becomes a scalar tensor of 64-bit
/// integers (`Tensor::new`), its reciprocal is taken in double precision
/// (`to_dtype`, `recip`) and brought to the element type (`to_dtype`);
/// `broadcast_mul` multiplies every element by it. The contract names the
/// resulting bytes and states their number.
#[verifier::external_body]
fn scale_through_candle(dtype: DType, buffer: &Vec<u8>, elements: usize, count: i64) -> (data: Vec<u8>)
    requires
        buffer@.len() == elements * dtype.spec_size(),
    ensures
        data@ == elementwise_scaled(dtype, buffer@, count),
        data@.len() == buffer@.len(),
{
    let dtype = match dtype {
        DType::F16 => candle_core::DType::F16,
        DType::BF16 => candle_core::DType::BF16,
        DType::F32 => candle_core::DType::F32,
        DType::F64 => candle_core::DType::F64,
    };
    let cpu = candle_core::Device::Cpu;
    let a = candle_core::Tensor::from_raw_buffer(buffer, dtype, &[elements], &cpu).unwrap();
    let count = candle_core::Tensor::new(count, &cpu).unwrap().to_dtype(candle_core::DType::F64).unwrap();
    let factor = count.recip().unwrap().to_dtype(dtype).unwrap();
    let scaled = a.broadcast_mul(&factor).unwrap();
    safetensors::View::data(&scaled).into_owned()
}

impl Tensor {
    /// What holds of every tensor: it is well sized.
    #[verifier::type_invariant]
    pub open spec fn well_formed(self) -> bool {
        self@.well_sized()
    }

    /// Builds a tensor from its parts. `Some` exactly when the data holds as
    /// many bytes as the shape and the element type ask for, and that number
    /// of bits fits a machine word.
    pub fn new(dtype: DType, shape: Vec<usize>, data: Vec<u8>) -> (r: Option<Tensor>)
        ensures
            r is Some <==> (TensorModel { dtype, shape: shape@, data: data@ }).well_sized(),
            r is Some ==> r->0@ == (TensorModel { dtype, shape: shape@, data: data@ }),
    {
        let mut count: usize = 1;
        let mut i: usize = 0;
        assert(shape@.take(0) =~= Seq::<usize>::empty());
        while i < shape.len()
            invariant
                i <= shape.len(),
                shape_in_range(shape@.take(i as int)),
                count == element_count(shape@.take(i as int)),
            decreases shape.len() - i,
        {
            let extent: usize = shape[i];
            proof {
                assert(shape@.take(i + 1).drop_last() =~= shape@.take(i as int));
                assert(shape@.take(i + 1).last() == extent);
            }
            match count.checked_mul(extent) {
                Some(product) => {
                    count = product;
                },
                None => {
                    proof {
                        if shape_in_range(shape@) {
                            lemma_prefix_in_range(shape@, i + 1);
                        }
                    }
                    return None;
                },
            }
            i = i + 1;
        }
        assert(shape@.take(i as int) =~= shape@);
        let size: usize = dtype.size();
        let bytes: usize = match count.checked_mul(size) {
            Some(bytes) => bytes,
            None => {
                assert(count * size * 8 > usize::MAX) by (nonlinear_arith)
                    requires
                        count * size > usize::MAX,
                ;
                return None;
            },
        };
        if bytes.checked_mul(8).is_none() || data.len() != bytes {
            return None;
        }
        Some(Tensor { dtype, shape, data })
    }

    /// The element type.
    pub fn dtype(&self) -> (d: DType)
        ensures
            d == self@.dtype,
    {
        self.dtype
    }

    /// The extent of each dimension.
    pub fn shape(&self) -> (s: &Vec<usize>)
        ensures
            s@ == self@.shape,
    {
        &self.shape
    }

    /// The elements in row-major order, each in little-endian bytes.
    pub fn data(&self) -> (d: &Vec<u8>)
        ensures
            d@ == self@.data,
    {
        &self.data
    }

    /// Whether the two tensors have one element type and one shape.
    pub fn compatible_with(&self, other: &Tensor) -> (b: bool)
        ensures
            b == self@.compatible(other@),
    {
        if self.dtype != other.dtype || self.shape.len() != other.shape.len() {
            return false;
        }
        let mut i: usize = 0;
        while i < self.shape.len()
            invariant
                i <= self.shape.len(),
                self.shape.len() == other.shape.len(),
                forall|k: int| 0 <= k < i ==> self.shape@[k] == other.shape@[k],
            decreases self.shape.len() - i,
        {
            if self.shape[i] != other.shape[i] {
                return false;
            }
            i = i + 1;
        }
        assert(self.shape@ =~= other.shape@);
        true
    }

    /// The sum of two tensors, element by element. `None` exactly when they
    /// differ in element type or in shape.
    pub fn add(&self, other: &Tensor) -> (r: Option<Tensor>)
        ensures
            r is Some <==> self@.compatible(other@),
            r is Some ==> r->0@ == self@.plus(other@),
    {
        if !self.compatible_with(other) {
            return None;
        }
        proof {
            use_type_invariant(self);
            use_type_invariant(other);
        }
        let count = self.element_count();
        let data = sum_through_candle(self.dtype, &self.data, &other.data, count);
        let shape = slice_to_vec(self.shape.as_slice());
        Some(Tensor { dtype: self.dtype, shape, data })
    }

    /// The tensor with every element multiplied by the reciprocal of `count`.
    pub fn scale_down(&self, count: i64) -> (r: Tensor)
        ensures
            r@ == self@.scaled_down(count),
    {
        proof {
            use_type_invariant(self);
        }
        let elements = self.element_count();
        let data = scale_through_candle(self.dtype, &self.data, elements, count);
        let shape = slice_to_vec(self.shape.as_slice());
        Tensor { dtype: self.dtype, shape, data }
    }

    /// Number of elements of the tensor.
    pub fn element_count(&self) -> (n: usize)
        ensures
            n == element_count(self@.shape),
            self@.data.len() == n * self@.dtype.spec_size(),
    {
        proof {
            use_type_invariant(self);
        }
        let size: usize = self.dtype.size();
        let n: usize = self.data.len() / size;
        assert(n == element_count(self.shape@)) by (nonlinear_arith)
            requires
                size > 0,
                n == (self.data@.len() as int) / (size as int),
                self.data@.len() == element_count(self.shape@) * size,
        ;
        n
    }
}

impl Clone for Tensor {
    /// A copy of the tensor.
    fn clone(&self) -> (r: Tensor)
        ensures
            r@ == self@,
    {
        proof {
            use_type_invariant(self);
        }
        let shape = slice_to_vec(self.shape.as_slice());
        let data = slice_to_vec(self.data.as_slice());
        Tensor { dtype: self.dtype, shape, data }
    }
}

} // verus!
