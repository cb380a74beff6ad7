use vstd::prelude::*;

use crate::integer::IntegerTrait;

verus! {

/// The number of bits for the quantization
#[derive(Clone, Copy, PartialEq, Eq, Structural, PartialOrd, Ord, Debug)]
pub enum NumBits {
    Bit8,
    Bit16,
    Bit32,
}

impl NumBits {
    /// The number of bits that the variant stands for.
    pub open spec fn bit_count(self) -> nat {
        match self {
            NumBits::Bit8 => 8,
            NumBits::Bit16 => 16,
            NumBits::Bit32 => 32,
        }
    }

    /// Returns the number of bits that the variant stands for.
    pub fn bits(&self) -> (r: usize)
        ensures
            r == self.bit_count(),
    {
        match self {
            NumBits::Bit8 => 8,
            NumBits::Bit16 => 16,
            NumBits::Bit32 => 32,
        }
    }
}

/// The smallest quantization precision that offers at least `num_bits` bits, or 32 bits where
/// none does.
pub open spec fn required_num_bits(num_bits: int) -> NumBits {
    if num_bits <= 8 {
        NumBits::Bit8
    } else if num_bits <= 16 {
        NumBits::Bit16
    } else {
        NumBits::Bit32
    }
}

/// The precision chosen for a requirement offers at least the required bits, up to 32, and a
/// stricter requirement never gets a smaller precision.
pub proof fn lemma_required_num_bits(a: int, b: int)
    ensures
        a <= 32 ==> a <= required_num_bits(a).bit_count(),
        required_num_bits(a).bit_count() <= 32,
        a <= b ==> required_num_bits(a).bit_count() <= required_num_bits(b).bit_count(),
        required_num_bits(a) == NumBits::Bit8 || 8 < a,
{
}

/// Quantized positions using uniform mapping
pub struct CompressedPositionsRaw<Integer: IntegerTrait, D> {
    /// The parameters for quantizing and de-quantizing position data
    q: D,
    /// The quantized position data, three values per position
    data: Vec<Integer>,
}

impl<Integer: IntegerTrait, D> CompressedPositionsRaw<Integer, D> {
    /// The quantized values, three per position.
    pub closed spec fn data(&self) -> Seq<Integer> {
        self.data@
    }

    /// The parameters of the (de-)quantization.
    pub closed spec fn quantizer(&self) -> D {
        self.q
    }

    /// Creates and returns a new raw compressed positions object from the given elements.
    ///
    /// # Arguments
    /// * `data` - The quantized values of the vector.
    /// * `q` - the (de-)quantization parameters.
    pub fn from_quantized(data: Vec<Integer>, q: D) -> (r: Self)
        ensures
            r.data() == data@,
            r.quantizer() == q,
    {
        Self { data, q }
    }

    /// Returns a reference onto the internal quantization parameters.
    pub fn get_quantization_operator(&self) -> (r: &D)
        ensures
            *r == self.quantizer(),
    {
        &self.q
    }

    /// Returns the number of positions.
    pub fn len(&self) -> (r: usize)
        ensures
            r == self.data().len() / 3,
    {
        self.data.len() / 3
    }

    /// Returns true if the compressed positions are empty, i.e., have length 0.
    pub fn is_empty(&self) -> (r: bool)
        ensures
            r <==> self.data().len() < 3,
    {
        self.len() == 0
    }

    /// Returns the i-th position in quantized form.
    ///
    /// # Arguments
    /// * `index` - The index of the position.
    pub fn get_quantized_position(&self, index: usize) -> (r: [Integer; 3])
        requires
            3 * index + 3 <= self.data().len(),
        ensures
            r@ == seq![
                self.data()[3 * index],
                self.data()[3 * index + 1],
                self.data()[3 * index + 2],
            ],
    {
        let n = self.data.len();
        assert(3 * index + 3 <= n);
        let i = index * 3;
        [self.data[i], self.data[i + 1], self.data[i + 2]]
    }

    /// Returns the quantized values as slice.
    pub fn as_slice(&self) -> (r: &[Integer])
        ensures
            r@ == self.data(),
    {
        self.data.as_slice()
    }

    /// Returns the required number of quantization bits for the specified precision.
    ///
    /// # Arguments
    /// * `num_bits` - The minimal required bit precision.
    pub fn determine_num_bits(num_bits: usize) -> (r: NumBits)
        ensures
            r == required_num_bits(num_bits as int),
    {
        if num_bits <= 8 {
            NumBits::Bit8
        } else if num_bits <= 16 {
            NumBits::Bit16
        } else {
            NumBits::Bit32
        }
    }
}

/// Compressed positions in one of the supported precisions.
pub enum CompressedPositions<D> {
    Bit8(CompressedPositionsRaw<u8, D>),
    Bit16(CompressedPositionsRaw<u16, D>),
    Bit32(CompressedPositionsRaw<u32, D>),
}

impl<D> CompressedPositions<D> {
    /// The number of quantized values held.
    pub open spec fn num_values(&self) -> nat {
        match self {
            CompressedPositions::Bit8(q) => q.data().len(),
            CompressedPositions::Bit16(q) => q.data().len(),
            CompressedPositions::Bit32(q) => q.data().len(),
        }
    }

    /// The (de-)quantization parameters.
    pub open spec fn descriptor(&self) -> D {
        match self {
            CompressedPositions::Bit8(q) => q.quantizer(),
            CompressedPositions::Bit16(q) => q.quantizer(),
            CompressedPositions::Bit32(q) => q.quantizer(),
        }
    }

    /// Returns the number of positions.
    pub fn len(&self) -> (r: usize)
        ensures
            r == self.num_values() / 3,
    {
        match self {
            CompressedPositions::Bit8(q) => q.len(),
            CompressedPositions::Bit16(q) => q.len(),
            CompressedPositions::Bit32(q) => q.len(),
        }
    }

    /// Returns true if the compressed positions are empty, i.e., have length 0.
    pub fn is_empty(&self) -> (r: bool)
        ensures
            r <==> self.num_values() < 3,
    {
        self.len() == 0
    }

    /// Returns the parameters of the de-quantization.
    pub fn get_de_quantify_descriptor(&self) -> (r: &D)
        ensures
            *r == self.descriptor(),
    {
        match self {
            CompressedPositions::Bit8(q) => q.get_quantization_operator(),
            CompressedPositions::Bit16(q) => q.get_quantization_operator(),
            CompressedPositions::Bit32(q) => q.get_quantization_operator(),
        }
    }
}

} // verus!
