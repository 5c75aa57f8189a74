//! Diffusion kernels: where the residual of a pixel goes, and in what shares.

use vstd::prelude::*;

verus! {

/// A diffusion kernel: forward offsets `(dx, dy, weight)` and the divisor
/// that the weights are shares of.
pub trait DiffusionMatrix {
    /// The divisor.
    spec fn spec_divisor(&self) -> usize;

    /// The targets: offsets `(dx, dy)` from the pixel as it is walked, and weight.
    spec fn spec_targets(&self) -> Seq<(isize, usize, usize)>;

    /// The divisor.
    fn divisor(&self) -> (r: usize)
        ensures
            r == self.spec_divisor(),
    ;

    /// The targets.
    fn targets(&self) -> (r: &[(isize, usize, usize)])
        ensures
            r@ == self.spec_targets(),
    ;
}

const NO_TARGETS: [(isize, usize, usize); 0] = [];

const FLOYD_STEINBERG_TARGETS: [(isize, usize, usize); 4] = [
    (1, 0, 7),
    (-1, 1, 3),
    (0, 1, 5),
    (1, 1, 1),
];

const JARVIS_JUDICE_AND_NINKE_TARGETS: [(isize, usize, usize); 12] = [
    (1, 0, 7),
    (2, 0, 5),
    (-2, 1, 3),
    (-1, 1, 5),
    (0, 1, 7),
    (1, 1, 5),
    (2, 1, 3),
    (-2, 2, 1),
    (-1, 2, 3),
    (0, 2, 5),
    (1, 2, 3),
    (2, 2, 1),
];

const ATKINSON_TARGETS: [(isize, usize, usize); 6] = [
    (1, 0, 1),
    (2, 0, 1),
    (-1, 1, 1),
    (0, 1, 1),
    (1, 1, 1),
    (0, 2, 1),
];

const SIERRA_TARGETS: [(isize, usize, usize); 10] = [
    (1, 0, 5),
    (2, 0, 3),
    (-2, 1, 2),
    (-1, 1, 4),
    (0, 1, 5),
    (1, 1, 4),
    (2, 1, 2),
    (-1, 2, 2),
    (0, 2, 3),
    (1, 2, 2),
];

/// The kernel that diffuses nothing.
pub struct NoDiffuse;

impl DiffusionMatrix for NoDiffuse {
    open spec fn spec_divisor(&self) -> usize {
        1
    }

    open spec fn spec_targets(&self) -> Seq<(isize, usize, usize)> {
        Seq::empty()
    }

    fn divisor(&self) -> (r: usize) {
        1
    }

    fn targets(&self) -> (r: &[(isize, usize, usize)]) {
        let table: &'static [(isize, usize, usize); 0] = &NO_TARGETS;
        let r = table.as_slice();
        assert(r@ =~= Seq::empty());
        r
    }
}

/// The kernel of Floyd and Steinberg.
pub struct FloydSteinberg;

impl DiffusionMatrix for FloydSteinberg {
    open spec fn spec_divisor(&self) -> usize {
        16
    }

    open spec fn spec_targets(&self) -> Seq<(isize, usize, usize)> {
        seq![
            (1isize, 0usize, 7usize),
            (-1isize, 1usize, 3usize),
            (0isize, 1usize, 5usize),
            (1isize, 1usize, 1usize),
        ]
    }

    fn divisor(&self) -> (r: usize) {
        16
    }

    fn targets(&self) -> (r: &[(isize, usize, usize)]) {
        let table: &'static [(isize, usize, usize); 4] = &FLOYD_STEINBERG_TARGETS;
        let r = table.as_slice();
        assert(r@ =~= self.spec_targets());
        r
    }
}

/// The kernel of Jarvis, Judice and Ninke.
pub struct JarvisJudiceAndNinke;

impl DiffusionMatrix for JarvisJudiceAndNinke {
    open spec fn spec_divisor(&self) -> usize {
        48
    }

    open spec fn spec_targets(&self) -> Seq<(isize, usize, usize)> {
        seq![
            (1isize, 0usize, 7usize),
            (2isize, 0usize, 5usize),
            (-2isize, 1usize, 3usize),
            (-1isize, 1usize, 5usize),
            (0isize, 1usize, 7usize),
            (1isize, 1usize, 5usize),
            (2isize, 1usize, 3usize),
            (-2isize, 2usize, 1usize),
            (-1isize, 2usize, 3usize),
            (0isize, 2usize, 5usize),
            (1isize, 2usize, 3usize),
            (2isize, 2usize, 1usize),
        ]
    }

    fn divisor(&self) -> (r: usize) {
        48
    }

    fn targets(&self) -> (r: &[(isize, usize, usize)]) {
        let table: &'static [(isize, usize, usize); 12] = &JARVIS_JUDICE_AND_NINKE_TARGETS;
        let r = table.as_slice();
        assert(r@ =~= self.spec_targets());
        r
    }
}

/// The kernel of Atkinson. Its weights add up to less than the divisor: part of
/// the residual is dropped.
pub struct Atkinson;

impl DiffusionMatrix for Atkinson {
    open spec fn spec_divisor(&self) -> usize {
        8
    }

    open spec fn spec_targets(&self) -> Seq<(isize, usize, usize)> {
        seq![
            (1isize, 0usize, 1usize),
            (2isize, 0usize, 1usize),
            (-1isize, 1usize, 1usize),
            (0isize, 1usize, 1usize),
            (1isize, 1usize, 1usize),
            (0isize, 2usize, 1usize),
        ]
    }

    fn divisor(&self) -> (r: usize) {
        8
    }

    fn targets(&self) -> (r: &[(isize, usize, usize)]) {
        let table: &'static [(isize, usize, usize); 6] = &ATKINSON_TARGETS;
        let r = table.as_slice();
        assert(r@ =~= self.spec_targets());
        r
    }
}

/// The three-row kernel of Sierra.
pub struct Sierra;

impl DiffusionMatrix for Sierra {
    open spec fn spec_divisor(&self) -> usize {
        32
    }

    open spec fn spec_targets(&self) -> Seq<(isize, usize, usize)> {
        seq![
            (1isize, 0usize, 5usize),
            (2isize, 0usize, 3usize),
            (-2isize, 1usize, 2usize),
            (-1isize, 1usize, 4usize),
            (0isize, 1usize, 5usize),
            (1isize, 1usize, 4usize),
            (2isize, 1usize, 2usize),
            (-1isize, 2usize, 2usize),
            (0isize, 2usize, 3usize),
            (1isize, 2usize, 2usize),
        ]
    }

    fn divisor(&self) -> (r: usize) {
        32
    }

    fn targets(&self) -> (r: &[(isize, usize, usize)]) {
        let table: &'static [(isize, usize, usize); 10] = &SIERRA_TARGETS;
        let r = table.as_slice();
        assert(r@ =~= self.spec_targets());
        r
    }
}

/// A kernel held as data: a copy of another kernel's table.
pub struct DynamicDiffusionMatrix(pub Vec<(isize, usize, usize)>, pub usize);

impl DiffusionMatrix for DynamicDiffusionMatrix {
    open spec fn spec_divisor(&self) -> usize {
        self.1
    }

    open spec fn spec_targets(&self) -> Seq<(isize, usize, usize)> {
        self.0@
    }

    fn divisor(&self) -> (r: usize) {
        self.1
    }

    fn targets(&self) -> (r: &[(isize, usize, usize)]) {
        self.0.as_slice()
    }
}

impl DynamicDiffusionMatrix {
    /// A copy of the table and the divisor of `t`.
    pub fn new<T: DiffusionMatrix>(t: T) -> (r: Self)
        ensures
            r.spec_targets() == t.spec_targets(),
            r.spec_divisor() == t.spec_divisor(),
    {
        let source = t.targets();
        let mut copy: Vec<(isize, usize, usize)> = Vec::new();
        let mut i: usize = 0;
        while i < source.len()
            invariant
                i <= source.len(),
                copy@ == source@.take(i as int),
            decreases source.len() - i,
        {
            copy.push(source[i]);
            assert(copy@ =~= source@.take(i + 1));
            i += 1;
        }
        assert(source@.take(source.len() as int) =~= source@);
        DynamicDiffusionMatrix(copy, t.divisor())
    }
}

impl DiffusionMatrix for Box<dyn DiffusionMatrix> {
    open spec fn spec_divisor(&self) -> usize {
        (**self).spec_divisor()
    }

    open spec fn spec_targets(&self) -> Seq<(isize, usize, usize)> {
        (**self).spec_targets()
    }

    fn divisor(&self) -> (r: usize) {
        (**self).divisor()
    }

    fn targets(&self) -> (r: &[(isize, usize, usize)]) {
        (**self).targets()
    }
}

} // verus!
