use vstd::prelude::*;

verus! {

/// The result of testing the intersection between two objects.
#[derive(Debug, Clone, Copy, PartialEq, Eq, Structural)]
pub enum IntersectionTestResult {
    /// The right-hand side object is completely inside the left-hand side object.
    Inside,
    /// The right-hand side object is partially inside the left-hand side object.
    Intersecting,
    /// No Intersection at all
    Outside,
}

/// A frustum defined by 6 planes which is usually used for modelling the camera view.
pub struct Frustum<P> {
    planes: [P; 6],
}

impl<P> Frustum<P> {
    /// The six planes of the frustum.
    pub closed spec fn planes(&self) -> Seq<P> {
        self.planes@
    }

    /// Creates the frustum bounded by the given six planes.
    ///
    /// # Arguments
    /// * `planes` - The planes whose positive half-spaces enclose the frustum.
    pub fn from_planes(planes: [P; 6]) -> (r: Self)
        ensures
            r.planes() == planes@,
    {
        Self { planes }
    }

    /// Checks if the given point is located inside the frustum.
    /// Returns true if the given point is located inside the frustum, i.e., behind none of its
    /// planes.
    ///
    /// # Arguments
    /// * `p` - The point to be checked
    /// * `is_behind` - Tells whether the point lies in the negative half-space of a plane.
    pub fn is_point_inside<Q, F: Fn(&P, &Q) -> bool>(&self, p: &Q, is_behind: F) -> (r: bool)
        requires
            forall|i: int| 0 <= i < 6 ==> call_requires(is_behind, (&self.planes()[i], p)),
        ensures
            r ==> forall|i: int|
                0 <= i < 6 ==> call_ensures(is_behind, (&#[trigger] self.planes()[i], p), false),
            !r ==> exists|i: int|
                0 <= i < 6 && call_ensures(is_behind, (&#[trigger] self.planes()[i], p), true),
    {
        !self.any_plane(p, is_behind)
    }

    /// Checks if the given box is outside of the frustum. Returns true if the given aabb volume
    /// is outside of the frustum and false otherwise.
    ///
    /// # Arguments
    /// * `aabb` - The aabb volume to check.
    /// * `is_negative` - Tells whether the volume lies completely in the negative open
    ///   half-space of a plane.
    pub fn is_aabb_outside<A, F: Fn(&P, &A) -> bool>(&self, aabb: &A, is_negative: F) -> (r: bool)
        requires
            forall|i: int| 0 <= i < 6 ==> call_requires(is_negative, (&self.planes()[i], aabb)),
        ensures
            r ==> exists|i: int|
                0 <= i < 6 && call_ensures(is_negative, (&#[trigger] self.planes()[i], aabb), true),
            !r ==> forall|i: int|
                0 <= i < 6 ==> call_ensures(is_negative, (&#[trigger] self.planes()[i], aabb), false),
    {
        // The aabb volume is outside the frustum, if the volume is inside one of the negative
        // open half-spaces of one of the frustum plans.
        self.any_plane(aabb, is_negative)
    }

    /// Returns true if the test holds for one of the planes, trying the planes in order.
    fn any_plane<A, F: Fn(&P, &A) -> bool>(&self, a: &A, test: F) -> (r: bool)
        requires
            forall|i: int| 0 <= i < 6 ==> call_requires(test, (&self.planes()[i], a)),
        ensures
            r ==> exists|i: int|
                0 <= i < 6 && call_ensures(test, (&#[trigger] self.planes()[i], a), true),
            !r ==> forall|i: int|
                0 <= i < 6 ==> call_ensures(test, (&#[trigger] self.planes()[i], a), false),
    {
        let mut i: usize = 0;
        while i < 6
            invariant
                i <= 6,
                forall|k: int| 0 <= k < 6 ==> call_requires(test, (&self.planes()[k], a)),
                forall|k: int|
                    0 <= k < i ==> call_ensures(test, (&#[trigger] self.planes()[k], a), false),
            decreases 6 - i,
        {
            if test(&self.planes[i], a) {
                return true;
            }
            i += 1;
        }
        false
    }
}

/// A box that the frustum reports outside holds no point that it reports inside: where no plane
/// can find the point in front of it while finding the box in its negative half-space (as holds
/// for every point of the box), a box found outside and the point found inside cannot both be
/// reported.
pub proof fn lemma_outside_box_holds_no_inside_point<
    P,
    A,
    Q,
    F: Fn(&P, &A) -> bool,
    G: Fn(&P, &Q) -> bool,
>(frustum: Frustum<P>, aabb: A, q: Q, is_negative: F, is_behind: G)
    requires
        forall|i: int|
            0 <= i < 6 && call_ensures(is_behind, (&#[trigger] frustum.planes()[i], &q), false)
                ==> !call_ensures(is_negative, (&frustum.planes()[i], &aabb), true),
    ensures
        (exists|i: int|
            0 <= i < 6 && call_ensures(is_negative, (&#[trigger] frustum.planes()[i], &aabb), true))
            ==> !(forall|i: int|
            0 <= i < 6 ==> call_ensures(is_behind, (&#[trigger] frustum.planes()[i], &q), false)),
{
}

} // verus!
