use vstd::prelude::*;
use vstd::std_specs::ops::AddSpec;

use crate::text::{decimal, push_decimal};

verus! {

/// A histogram of the object ids in the frame buffer. The index of the vector is the object id
/// and its value is the number of pixels with that object id.
pub type Histogram = Vec<u32>;

/// The options for a renderer
#[derive(Clone, Copy, PartialEq, Eq, Structural, Debug)]
pub struct RenderOptions {
    /// The number of threads to be used for the renderer
    pub num_threads: usize,
    /// The size of the quadratic frame buffer
    pub frame_size: usize,
}

impl Default for RenderOptions {
    fn default() -> (r: Self)
        ensures
            r.num_threads == 1,
            r.frame_size == 512,
    {
        Self { num_threads: 1, frame_size: 512 }
    }
}

/// Resulting stats about the rendering process
#[derive(Clone, Copy, PartialEq, Eq, Structural, Debug)]
pub struct RenderStats {
    /// The number of triangles processed, i.e., that could not be avoided through acceleration
    /// structures or other means.
    pub num_triangles: usize,
}

impl Default for RenderStats {
    fn default() -> (r: Self)
        ensures
            r.num_triangles == 0,
    {
        Self { num_triangles: 0 }
    }
}

impl std::ops::Add<Self> for RenderStats {
    type Output = Self;

    /// Returns the stats with the number of triangles of both summed up.
    fn add(self, rhs: Self) -> (r: Self::Output) {
        Self { num_triangles: self.num_triangles + rhs.num_triangles }
    }
}

impl vstd::std_specs::ops::AddSpecImpl<Self> for RenderStats {
    open spec fn obeys_add_spec() -> bool {
        true
    }

    open spec fn add_req(self, rhs: Self) -> bool {
        self.num_triangles + rhs.num_triangles <= usize::MAX
    }

    open spec fn add_spec(self, rhs: Self) -> Self {
        RenderStats { num_triangles: (self.num_triangles + rhs.num_triangles) as usize }
    }
}

impl RenderStats {
    /// Adds the stats of `rhs` to these stats.
    pub fn add_assign(&mut self, rhs: Self)
        requires
            old(self).num_triangles + rhs.num_triangles <= usize::MAX,
        ensures
            final(self).num_triangles == old(self).num_triangles + rhs.num_triangles,
    {
        self.num_triangles += rhs.num_triangles;
    }
}

/// Adding stats is commutative and associative, and the default stats add nothing.
pub proof fn lemma_render_stats_add(a: RenderStats, b: RenderStats, c: RenderStats)
    ensures
        a.add_spec(b) == b.add_spec(a),
        a.add_req(b) && a.add_spec(b).add_req(c) ==> a.add_spec(b).add_spec(c) == a.add_spec(
            b.add_spec(c),
        ),
        a.add_spec(RenderStats { num_triangles: 0 }) == a,
{
}

/// The largest object id in the buffer, where an empty pixel counts as id 0.
pub open spec fn max_id(ids: Seq<Option<u32>>) -> int
    decreases ids.len(),
{
    if ids.len() == 0 {
        0
    } else {
        let m = max_id(ids.drop_last());
        let l = match ids.last() {
            Some(id) => id as int,
            None => 0,
        };
        if m < l {
            l
        } else {
            m
        }
    }
}

/// The largest object id bounds every id of the buffer.
proof fn lemma_max_id(ids: Seq<Option<u32>>)
    ensures
        0 <= max_id(ids) <= u32::MAX,
        forall|i: int|
            0 <= i < ids.len() && ids[i] is Some ==> (#[trigger] ids[i])->0 <= max_id(ids),
    decreases ids.len(),
{
    if ids.len() > 0 {
        lemma_max_id(ids.drop_last());
        assert forall|i: int| 0 <= i < ids.len() && ids[i] is Some implies (#[trigger] ids[i])->0
            <= max_id(ids) by {
            if i < ids.len() - 1 {
                assert(ids[i] == ids.drop_last()[i]);
            }
        }
    }
}

/// The sum of the counts of a histogram.
pub open spec fn histogram_sum(h: Seq<u32>) -> int
    decreases h.len(),
{
    if h.len() == 0 {
        0
    } else {
        histogram_sum(h.drop_last()) + h.last()
    }
}

/// Counting pixels splits over any split of the histogram, and a histogram of one entry counts
/// that entry's pixels: the count is the plain sum of the entries.
pub proof fn lemma_histogram_sum_additive(a: Seq<u32>, b: Seq<u32>, x: u32)
    ensures
        histogram_sum(a + b) == histogram_sum(a) + histogram_sum(b),
        histogram_sum(seq![x]) == x,
        histogram_sum(Seq::<u32>::empty()) == 0,
    decreases b.len(),
{
    assert(seq![x].drop_last() == Seq::<u32>::empty());
    assert(histogram_sum(seq![x]) == histogram_sum(Seq::<u32>::empty()) + seq![x].last());
    if b.len() == 0 {
        assert(a + b == a);
    } else {
        lemma_histogram_sum_additive(a, b.drop_last(), x);
        assert((a + b).drop_last() == a + b.drop_last());
        assert((a + b).last() == b.last());
    }
}

/// The sum over a prefix of a histogram lies between zero and the sum over the whole histogram.
proof fn lemma_histogram_prefix_sum(h: Seq<u32>, i: int)
    requires
        0 <= i <= h.len(),
    ensures
        0 <= histogram_sum(h.subrange(0, i)) <= histogram_sum(h),
    decreases h.len() - i,
{
    if i < h.len() {
        lemma_histogram_prefix_sum(h, i + 1);
        assert(h.subrange(0, i + 1).drop_last() == h.subrange(0, i));
        lemma_histogram_sum_nonnegative(h.subrange(0, i));
    } else {
        assert(h.subrange(0, i) == h);
        lemma_histogram_sum_nonnegative(h);
    }
}

/// The sum of a histogram is not negative.
proof fn lemma_histogram_sum_nonnegative(h: Seq<u32>)
    ensures
        0 <= histogram_sum(h),
    decreases h.len(),
{
    if h.len() > 0 {
        lemma_histogram_sum_nonnegative(h.drop_last());
    }
}

/// Returns the number of pixels counted by the given histogram of object ids.
///
/// # Arguments
/// * `histogram` - The number of pixels per object id.
pub fn count_filled_pixels(histogram: &Histogram) -> (r: u32)
    requires
        histogram_sum(histogram@) <= u32::MAX,
    ensures
        r == histogram_sum(histogram@),
{
    let mut sum: u32 = 0;
    let mut i: usize = 0;
    while i < histogram.len()
        invariant
            i <= histogram@.len(),
            histogram_sum(histogram@) <= u32::MAX,
            sum == histogram_sum(histogram@.subrange(0, i as int)),
        decreases histogram@.len() - i,
    {
        proof {
            assert(histogram@.subrange(0, i + 1).drop_last() == histogram@.subrange(0, i as int));
            lemma_histogram_prefix_sum(histogram@, i + 1);
        }
        sum = sum + histogram[i];
        i += 1;
    }
    proof {
        assert(histogram@.subrange(0, histogram@.len() as int) == histogram@);
    }
    sum
}

/// The header of a plain PGM image of `size` by `size` pixels with the maximal gray value 255.
pub open spec fn pgm_header(size: nat) -> Seq<u8> {
    seq![80u8, 50u8, 10u8] + decimal(size) + seq![32u8] + decimal(size) + seq![10u8, 50u8, 53u8, 53u8, 10u8]
}

/// The gray values of the first `n` pixels in plain PGM form: each value followed by a space,
/// and a line break after each value whose index is positive and divisible by `size`.
pub open spec fn pgm_body(values: Seq<u32>, size: nat, n: int) -> Seq<u8>
    decreases n,
{
    if n <= 0 {
        seq![]
    } else {
        let i = n - 1;
        pgm_body(values, size, i) + decimal(values[i] as nat) + seq![32u8] + if i > 0 && i % (
        size as int) == 0 {
            seq![10u8]
        } else {
            seq![]
        }
    }
}

/// Encodes the gray values of a quadratic frame as plain PGM image with the maximal gray value
/// 255: the header, then each value followed by a space, with a line break after each value
/// whose index is positive and divisible by the frame size.
///
/// # Arguments
/// * `frame_size` - The width and height of the frame.
/// * `gray_values` - The gray value of each pixel.
pub fn encode_depth_pgm(frame_size: usize, gray_values: &[u32]) -> (r: Vec<u8>)
    requires
        frame_size > 0 || gray_values@.len() <= 1,
    ensures
        r@ == pgm_header(frame_size as nat) + pgm_body(
            gray_values@,
            frame_size as nat,
            gray_values@.len() as int,
        ),
{
    let mut out: Vec<u8> = Vec::new();
    out.push(80);
    out.push(50);
    out.push(10);
    push_decimal(&mut out, frame_size);
    out.push(32);
    push_decimal(&mut out, frame_size);
    out.push(10);
    out.push(50);
    out.push(53);
    out.push(53);
    out.push(10);
    proof {
        assert(out@ == pgm_header(frame_size as nat) + pgm_body(gray_values@, frame_size as nat, 0));
    }
    let mut index: usize = 0;
    while index < gray_values.len()
        invariant
            index <= gray_values@.len(),
            frame_size > 0 || gray_values@.len() <= 1,
            out@ == pgm_header(frame_size as nat) + pgm_body(
                gray_values@,
                frame_size as nat,
                index as int,
            ),
        decreases gray_values@.len() - index,
    {
        let ghost before = out@;
        push_decimal(&mut out, gray_values[index] as usize);
        out.push(32);
        let newline = index > 0 && index % frame_size == 0;
        if newline {
            out.push(10);
        }
        proof {
            let body = pgm_body(gray_values@, frame_size as nat, index as int);
            let tail = if newline {
                seq![10u8]
            } else {
                seq![]
            };
            assert(pgm_body(gray_values@, frame_size as nat, index + 1) == body + decimal(
                gray_values@[index as int] as nat,
            ) + seq![32u8] + tail);
            assert(out@ == before + decimal(gray_values@[index as int] as nat) + seq![32u8] + tail);
        }
        index += 1;
    }
    out
}

/// A rendered frame: the object id and, optionally, the depth of each pixel.
#[derive(Clone)]
pub struct Frame<D> {
    /// The width and height of the quadratic frame buffer
    size: usize,
    /// The id-buffer contains per pixel ids
    id_buffer: Vec<Option<u32>>,
    /// The depth buffer contains the per pixel depth.
    /// The depth buffer is optional.
    depth_buffer: Option<Vec<D>>,
}

impl<D: Copy> Frame<D> {
    /// The id buffer, and the depth buffer where there is one, hold one entry per pixel of the
    /// frame. Every frame is created so; the methods change no buffer's length, and writing
    /// through the slices of the mutable getters keeps it so as long as a slice keeps its length.
    pub open spec fn sized(&self) -> bool {
        &&& self.ids().len() == self.frame_size() * self.frame_size()
        &&& match self.depths() {
            Some(d) => d.len() == self.frame_size() * self.frame_size(),
            None => true,
        }
    }

    /// The width and height of the frame.
    pub closed spec fn frame_size(&self) -> nat {
        self.size as nat
    }

    /// The object id of each pixel.
    pub closed spec fn ids(&self) -> Seq<Option<u32>> {
        self.id_buffer@
    }

    /// The depth of each pixel, if the frame has a depth buffer.
    pub closed spec fn depths(&self) -> Option<Seq<D>> {
        match self.depth_buffer {
            Some(d) => Some(d@),
            None => None,
        }
    }

    /// Creates a new empty frame
    ///
    /// # Arguments
    /// * `size` - The width and height of the quadratic frame buffer
    /// * `with_depths` - If true, the frame will contain a depth buffer.
    /// * `initial_depth` - The depth that each pixel of the depth buffer starts with.
    pub fn new_empty(size: usize, with_depths: bool, initial_depth: D) -> (r: Self)
        requires
            size * size <= usize::MAX,
        ensures
            r.sized(),
            r.frame_size() == size,
            r.ids() == Seq::new((size * size) as nat, |i: int| None::<u32>),
            r.depths() == if with_depths {
                Some(Seq::new((size * size) as nat, |i: int| initial_depth))
            } else {
                None
            },
    {
        let n = size * size;
        let mut id_buffer: Vec<Option<u32>> = Vec::new();
        let mut i: usize = 0;
        while i < n
            invariant
                i <= n,
                id_buffer@ == Seq::new(i as nat, |k: int| None::<u32>),
            decreases n - i,
        {
            id_buffer.push(None);
            i += 1;
        }
        let depth_buffer = if with_depths {
            let mut depths: Vec<D> = Vec::new();
            let mut j: usize = 0;
            while j < n
                invariant
                    j <= n,
                    depths@ == Seq::new(j as nat, |k: int| initial_depth),
                decreases n - j,
            {
                depths.push(initial_depth);
                j += 1;
            }
            Some(depths)
        } else {
            None
        };
        Self { size, id_buffer, depth_buffer }
    }

    /// Returns the size of the quadratic frame buffer.
    pub fn get_frame_size(&self) -> (r: usize)
        ensures
            r == self.frame_size(),
    {
        self.size
    }

    /// Returns a reference onto the id buffer.
    pub fn get_id_buffer(&self) -> (r: &[Option<u32>])
        ensures
            r@ == self.ids(),
    {
        self.id_buffer.as_slice()
    }

    /// Returns a mutable reference onto the id buffer.
    pub fn get_id_buffer_mut(&mut self) -> (r: &mut [Option<u32>])
        ensures
            r@ == old(self).ids(),
            final(r)@ == final(self).ids(),
            final(self).frame_size() == old(self).frame_size(),
            final(self).depths() == old(self).depths(),
            old(self).sized() && final(r)@.len() == r@.len() ==> final(self).sized(),
    {
        self.id_buffer.as_mut_slice()
    }

    /// Returns a reference onto the depth buffer.
    pub fn get_depth_buffer(&self) -> (r: Option<&[D]>)
        ensures
            match self.depths() {
                Some(d) => r is Some && r->0@ == d,
                None => r is None,
            },
    {
        match &self.depth_buffer {
            Some(d) => Some(d.as_slice()),
            None => None,
        }
    }

    /// Returns a mutable reference onto the depth buffer.
    pub fn get_depth_buffer_mut(&mut self) -> (r: Option<&mut [D]>)
        ensures
            r is Some <==> old(self).depths() is Some,
            r matches Some(s) ==> Some(s@) == old(self).depths() && Some(final(s)@)
                == final(self).depths(),
            r is None ==> final(self).depths() == old(self).depths(),
            final(self).frame_size() == old(self).frame_size(),
            final(self).ids() == old(self).ids(),
            old(self).sized() && (r matches Some(s) ==> final(s)@.len() == s@.len())
                ==> final(self).sized(),
    {
        match &mut self.depth_buffer {
            Some(d) => Some(d.as_mut_slice()),
            None => None,
        }
    }

    /// Returns the number of object ids that a palette for the id buffer must hold: one more
    /// than the largest id, where empty pixels count as id 0, or zero for an empty buffer.
    pub fn num_ids(&self) -> (r: usize)
        requires
            max_id(self.ids()) < usize::MAX,
        ensures
            r == if self.ids().len() == 0 {
                0
            } else {
                max_id(self.ids()) + 1
            },
            forall|i: int|
                0 <= i < self.ids().len() && self.ids()[i] is Some ==> (#[trigger] self.ids()[i])->0
                    < r,
    {
        let ids = &self.id_buffer;
        if ids.len() == 0 {
            return 0;
        }
        let mut n: u32 = 0;
        let mut i: usize = 0;
        while i < ids.len()
            invariant
                i <= ids@.len(),
                ids@ == self.ids(),
                n == max_id(ids@.subrange(0, i as int)),
            decreases ids@.len() - i,
        {
            proof {
                assert(ids@.subrange(0, i + 1).drop_last() == ids@.subrange(0, i as int));
            }
            let id = match ids[i] {
                Some(id) => id,
                None => 0,
            };
            if n < id {
                n = id;
            }
            i += 1;
        }
        proof {
            assert(ids@.subrange(0, ids@.len() as int) == ids@);
            lemma_max_id(ids@);
        }
        n as usize + 1
    }
}

} // verus!
