//! Cramer's rule for three columns, proved by multiplying out.

use vstd::prelude::*;
use crate::barycentric::vector::{det3, lemma_distribute_left, Vec3};

verus! {

/// `(t1 + t2 + t3) * k`, multiplied out.
proof fn lemma_sum3_times(t1: int, t2: int, t3: int, k: int)
    by (nonlinear_arith)
    ensures
        (t1 + t2 + t3) * k == t1 * k + t2 * k + t3 * k,
{
}

/// The `x` components of Cramer's rule, with the determinants written out. Every
/// product of a determinant and a component is multiplied out to products of
/// four, and these are matched one by one.
proof fn lemma_cramer_x(
    bx: int,
    by: int,
    bz: int,
    cx: int,
    cy: int,
    cz: int,
    dx: int,
    dy: int,
    dz: int,
    vx: int,
    vy: int,
    vz: int,
)
    ensures
        (bx * (cy * dz - cz * dy) + by * (cz * dx - cx * dz) + bz * (cx * dy - cy * dx)) * vx
            == (vx * (cy * dz - cz * dy) + vy * (cz * dx - cx * dz) + vz * (cx * dy - cy * dx)) * bx
            + (bx * (vy * dz - vz * dy) + by * (vz * dx - vx * dz) + bz * (vx * dy - vy * dx)) * cx
            + (bx * (cy * vz - cz * vy) + by * (cz * vx - cx * vz) + bz * (cx * vy - cy * vx)) * dx,
{
    lemma_distribute_left(bx, cy, dz, cz, dy);
    assert(((bx * cy) * dz - (bx * cz) * dy) * vx
        == ((bx * cy) * dz) * vx - ((bx * cz) * dy) * vx) by (nonlinear_arith);
    lemma_distribute_left(by, cz, dx, cx, dz);
    assert(((by * cz) * dx - (by * cx) * dz) * vx
        == ((by * cz) * dx) * vx - ((by * cx) * dz) * vx) by (nonlinear_arith);
    lemma_distribute_left(bz, cx, dy, cy, dx);
    assert(((bz * cx) * dy - (bz * cy) * dx) * vx
        == ((bz * cx) * dy) * vx - ((bz * cy) * dx) * vx) by (nonlinear_arith);
    lemma_sum3_times(
        bx * (cy * dz - cz * dy),
        by * (cz * dx - cx * dz),
        bz * (cx * dy - cy * dx),
        vx,
    );
    lemma_distribute_left(vx, cy, dz, cz, dy);
    assert(((vx * cy) * dz - (vx * cz) * dy) * bx
        == ((vx * cy) * dz) * bx - ((vx * cz) * dy) * bx) by (nonlinear_arith);
    assert(((vx * cy) * dz) * bx == ((bx * cy) * dz) * vx) by (nonlinear_arith);
    assert(((vx * cz) * dy) * bx == ((bx * cz) * dy) * vx) by (nonlinear_arith);
    lemma_distribute_left(vy, cz, dx, cx, dz);
    assert(((vy * cz) * dx - (vy * cx) * dz) * bx
        == ((vy * cz) * dx) * bx - ((vy * cx) * dz) * bx) by (nonlinear_arith);
    assert(((vy * cz) * dx) * bx == ((bx * cz) * dx) * vy) by (nonlinear_arith);
    assert(((vy * cx) * dz) * bx == ((bx * cx) * dz) * vy) by (nonlinear_arith);
    lemma_distribute_left(vz, cx, dy, cy, dx);
    assert(((vz * cx) * dy - (vz * cy) * dx) * bx
        == ((vz * cx) * dy) * bx - ((vz * cy) * dx) * bx) by (nonlinear_arith);
    assert(((vz * cx) * dy) * bx == ((bx * cx) * dy) * vz) by (nonlinear_arith);
    assert(((vz * cy) * dx) * bx == ((bx * cy) * dx) * vz) by (nonlinear_arith);
    lemma_sum3_times(
        vx * (cy * dz - cz * dy),
        vy * (cz * dx - cx * dz),
        vz * (cx * dy - cy * dx),
        bx,
    );
    lemma_distribute_left(bx, vy, dz, vz, dy);
    assert(((bx * vy) * dz - (bx * vz) * dy) * cx
        == ((bx * vy) * dz) * cx - ((bx * vz) * dy) * cx) by (nonlinear_arith);
    assert(((bx * vy) * dz) * cx == ((bx * cx) * dz) * vy) by (nonlinear_arith);
    assert(((bx * vz) * dy) * cx == ((bx * cx) * dy) * vz) by (nonlinear_arith);
    lemma_distribute_left(by, vz, dx, vx, dz);
    assert(((by * vz) * dx - (by * vx) * dz) * cx
        == ((by * vz) * dx) * cx - ((by * vx) * dz) * cx) by (nonlinear_arith);
    assert(((by * vz) * dx) * cx == ((by * cx) * dx) * vz) by (nonlinear_arith);
    assert(((by * vx) * dz) * cx == ((by * cx) * dz) * vx) by (nonlinear_arith);
    lemma_distribute_left(bz, vx, dy, vy, dx);
    assert(((bz * vx) * dy - (bz * vy) * dx) * cx
        == ((bz * vx) * dy) * cx - ((bz * vy) * dx) * cx) by (nonlinear_arith);
    assert(((bz * vx) * dy) * cx == ((bz * cx) * dy) * vx) by (nonlinear_arith);
    assert(((bz * vy) * dx) * cx == ((bz * cx) * dx) * vy) by (nonlinear_arith);
    lemma_sum3_times(
        bx * (vy * dz - vz * dy),
        by * (vz * dx - vx * dz),
        bz * (vx * dy - vy * dx),
        cx,
    );
    lemma_distribute_left(bx, cy, vz, cz, vy);
    assert(((bx * cy) * vz - (bx * cz) * vy) * dx
        == ((bx * cy) * vz) * dx - ((bx * cz) * vy) * dx) by (nonlinear_arith);
    assert(((bx * cy) * vz) * dx == ((bx * cy) * dx) * vz) by (nonlinear_arith);
    assert(((bx * cz) * vy) * dx == ((bx * cz) * dx) * vy) by (nonlinear_arith);
    lemma_distribute_left(by, cz, vx, cx, vz);
    assert(((by * cz) * vx - (by * cx) * vz) * dx
        == ((by * cz) * vx) * dx - ((by * cx) * vz) * dx) by (nonlinear_arith);
    assert(((by * cz) * vx) * dx == ((by * cz) * dx) * vx) by (nonlinear_arith);
    assert(((by * cx) * vz) * dx == ((by * cx) * dx) * vz) by (nonlinear_arith);
    lemma_distribute_left(bz, cx, vy, cy, vx);
    assert(((bz * cx) * vy - (bz * cy) * vx) * dx
        == ((bz * cx) * vy) * dx - ((bz * cy) * vx) * dx) by (nonlinear_arith);
    assert(((bz * cx) * vy) * dx == ((bz * cx) * dx) * vy) by (nonlinear_arith);
    assert(((bz * cy) * vx) * dx == ((bz * cy) * dx) * vx) by (nonlinear_arith);
    lemma_sum3_times(
        bx * (cy * vz - cz * vy),
        by * (cz * vx - cx * vz),
        bz * (cx * vy - cy * vx),
        dx,
    );
}

/// The `y` components of Cramer's rule, with the determinants written out. Every
/// product of a determinant and a component is multiplied out to products of
/// four, and these are matched one by one.
proof fn lemma_cramer_y(
    bx: int,
    by: int,
    bz: int,
    cx: int,
    cy: int,
    cz: int,
    dx: int,
    dy: int,
    dz: int,
    vx: int,
    vy: int,
    vz: int,
)
    ensures
        (bx * (cy * dz - cz * dy) + by * (cz * dx - cx * dz) + bz * (cx * dy - cy * dx)) * vy
            == (vx * (cy * dz - cz * dy) + vy * (cz * dx - cx * dz) + vz * (cx * dy - cy * dx)) * by
            + (bx * (vy * dz - vz * dy) + by * (vz * dx - vx * dz) + bz * (vx * dy - vy * dx)) * cy
            + (bx * (cy * vz - cz * vy) + by * (cz * vx - cx * vz) + bz * (cx * vy - cy * vx)) * dy,
{
    lemma_distribute_left(bx, cy, dz, cz, dy);
    assert(((bx * cy) * dz - (bx * cz) * dy) * vy
        == ((bx * cy) * dz) * vy - ((bx * cz) * dy) * vy) by (nonlinear_arith);
    lemma_distribute_left(by, cz, dx, cx, dz);
    assert(((by * cz) * dx - (by * cx) * dz) * vy
        == ((by * cz) * dx) * vy - ((by * cx) * dz) * vy) by (nonlinear_arith);
    lemma_distribute_left(bz, cx, dy, cy, dx);
    assert(((bz * cx) * dy - (bz * cy) * dx) * vy
        == ((bz * cx) * dy) * vy - ((bz * cy) * dx) * vy) by (nonlinear_arith);
    lemma_sum3_times(
        bx * (cy * dz - cz * dy),
        by * (cz * dx - cx * dz),
        bz * (cx * dy - cy * dx),
        vy,
    );
    lemma_distribute_left(vx, cy, dz, cz, dy);
    assert(((vx * cy) * dz - (vx * cz) * dy) * by
        == ((vx * cy) * dz) * by - ((vx * cz) * dy) * by) by (nonlinear_arith);
    assert(((vx * cy) * dz) * by == ((by * cy) * dz) * vx) by (nonlinear_arith);
    assert(((vx * cz) * dy) * by == ((by * cz) * dy) * vx) by (nonlinear_arith);
    lemma_distribute_left(vy, cz, dx, cx, dz);
    assert(((vy * cz) * dx - (vy * cx) * dz) * by
        == ((vy * cz) * dx) * by - ((vy * cx) * dz) * by) by (nonlinear_arith);
    assert(((vy * cz) * dx) * by == ((by * cz) * dx) * vy) by (nonlinear_arith);
    assert(((vy * cx) * dz) * by == ((by * cx) * dz) * vy) by (nonlinear_arith);
    lemma_distribute_left(vz, cx, dy, cy, dx);
    assert(((vz * cx) * dy - (vz * cy) * dx) * by
        == ((vz * cx) * dy) * by - ((vz * cy) * dx) * by) by (nonlinear_arith);
    assert(((vz * cx) * dy) * by == ((by * cx) * dy) * vz) by (nonlinear_arith);
    assert(((vz * cy) * dx) * by == ((by * cy) * dx) * vz) by (nonlinear_arith);
    lemma_sum3_times(
        vx * (cy * dz - cz * dy),
        vy * (cz * dx - cx * dz),
        vz * (cx * dy - cy * dx),
        by,
    );
    lemma_distribute_left(bx, vy, dz, vz, dy);
    assert(((bx * vy) * dz - (bx * vz) * dy) * cy
        == ((bx * vy) * dz) * cy - ((bx * vz) * dy) * cy) by (nonlinear_arith);
    assert(((bx * vy) * dz) * cy == ((bx * cy) * dz) * vy) by (nonlinear_arith);
    assert(((bx * vz) * dy) * cy == ((bx * cy) * dy) * vz) by (nonlinear_arith);
    lemma_distribute_left(by, vz, dx, vx, dz);
    assert(((by * vz) * dx - (by * vx) * dz) * cy
        == ((by * vz) * dx) * cy - ((by * vx) * dz) * cy) by (nonlinear_arith);
    assert(((by * vz) * dx) * cy == ((by * cy) * dx) * vz) by (nonlinear_arith);
    assert(((by * vx) * dz) * cy == ((by * cy) * dz) * vx) by (nonlinear_arith);
    lemma_distribute_left(bz, vx, dy, vy, dx);
    assert(((bz * vx) * dy - (bz * vy) * dx) * cy
        == ((bz * vx) * dy) * cy - ((bz * vy) * dx) * cy) by (nonlinear_arith);
    assert(((bz * vx) * dy) * cy == ((bz * cy) * dy) * vx) by (nonlinear_arith);
    assert(((bz * vy) * dx) * cy == ((bz * cy) * dx) * vy) by (nonlinear_arith);
    lemma_sum3_times(
        bx * (vy * dz - vz * dy),
        by * (vz * dx - vx * dz),
        bz * (vx * dy - vy * dx),
        cy,
    );
    lemma_distribute_left(bx, cy, vz, cz, vy);
    assert(((bx * cy) * vz - (bx * cz) * vy) * dy
        == ((bx * cy) * vz) * dy - ((bx * cz) * vy) * dy) by (nonlinear_arith);
    assert(((bx * cy) * vz) * dy == ((bx * cy) * dy) * vz) by (nonlinear_arith);
    assert(((bx * cz) * vy) * dy == ((bx * cz) * dy) * vy) by (nonlinear_arith);
    lemma_distribute_left(by, cz, vx, cx, vz);
    assert(((by * cz) * vx - (by * cx) * vz) * dy
        == ((by * cz) * vx) * dy - ((by * cx) * vz) * dy) by (nonlinear_arith);
    assert(((by * cz) * vx) * dy == ((by * cz) * dy) * vx) by (nonlinear_arith);
    assert(((by * cx) * vz) * dy == ((by * cx) * dy) * vz) by (nonlinear_arith);
    lemma_distribute_left(bz, cx, vy, cy, vx);
    assert(((bz * cx) * vy - (bz * cy) * vx) * dy
        == ((bz * cx) * vy) * dy - ((bz * cy) * vx) * dy) by (nonlinear_arith);
    assert(((bz * cx) * vy) * dy == ((bz * cx) * dy) * vy) by (nonlinear_arith);
    assert(((bz * cy) * vx) * dy == ((bz * cy) * dy) * vx) by (nonlinear_arith);
    lemma_sum3_times(
        bx * (cy * vz - cz * vy),
        by * (cz * vx - cx * vz),
        bz * (cx * vy - cy * vx),
        dy,
    );
}

/// The `z` components of Cramer's rule, with the determinants written out. Every
/// product of a determinant and a component is multiplied out to products of
/// four, and these are matched one by one.
proof fn lemma_cramer_z(
    bx: int,
    by: int,
    bz: int,
    cx: int,
    cy: int,
    cz: int,
    dx: int,
    dy: int,
    dz: int,
    vx: int,
    vy: int,
    vz: int,
)
    ensures
        (bx * (cy * dz - cz * dy) + by * (cz * dx - cx * dz) + bz * (cx * dy - cy * dx)) * vz
            == (vx * (cy * dz - cz * dy) + vy * (cz * dx - cx * dz) + vz * (cx * dy - cy * dx)) * bz
            + (bx * (vy * dz - vz * dy) + by * (vz * dx - vx * dz) + bz * (vx * dy - vy * dx)) * cz
            + (bx * (cy * vz - cz * vy) + by * (cz * vx - cx * vz) + bz * (cx * vy - cy * vx)) * dz,
{
    lemma_distribute_left(bx, cy, dz, cz, dy);
    assert(((bx * cy) * dz - (bx * cz) * dy) * vz
        == ((bx * cy) * dz) * vz - ((bx * cz) * dy) * vz) by (nonlinear_arith);
    lemma_distribute_left(by, cz, dx, cx, dz);
    assert(((by * cz) * dx - (by * cx) * dz) * vz
        == ((by * cz) * dx) * vz - ((by * cx) * dz) * vz) by (nonlinear_arith);
    lemma_distribute_left(bz, cx, dy, cy, dx);
    assert(((bz * cx) * dy - (bz * cy) * dx) * vz
        == ((bz * cx) * dy) * vz - ((bz * cy) * dx) * vz) by (nonlinear_arith);
    lemma_sum3_times(
        bx * (cy * dz - cz * dy),
        by * (cz * dx - cx * dz),
        bz * (cx * dy - cy * dx),
        vz,
    );
    lemma_distribute_left(vx, cy, dz, cz, dy);
    assert(((vx * cy) * dz - (vx * cz) * dy) * bz
        == ((vx * cy) * dz) * bz - ((vx * cz) * dy) * bz) by (nonlinear_arith);
    assert(((vx * cy) * dz) * bz == ((bz * cy) * dz) * vx) by (nonlinear_arith);
    assert(((vx * cz) * dy) * bz == ((bz * cz) * dy) * vx) by (nonlinear_arith);
    lemma_distribute_left(vy, cz, dx, cx, dz);
    assert(((vy * cz) * dx - (vy * cx) * dz) * bz
        == ((vy * cz) * dx) * bz - ((vy * cx) * dz) * bz) by (nonlinear_arith);
    assert(((vy * cz) * dx) * bz == ((bz * cz) * dx) * vy) by (nonlinear_arith);
    assert(((vy * cx) * dz) * bz == ((bz * cx) * dz) * vy) by (nonlinear_arith);
    lemma_distribute_left(vz, cx, dy, cy, dx);
    assert(((vz * cx) * dy - (vz * cy) * dx) * bz
        == ((vz * cx) * dy) * bz - ((vz * cy) * dx) * bz) by (nonlinear_arith);
    assert(((vz * cx) * dy) * bz == ((bz * cx) * dy) * vz) by (nonlinear_arith);
    assert(((vz * cy) * dx) * bz == ((bz * cy) * dx) * vz) by (nonlinear_arith);
    lemma_sum3_times(
        vx * (cy * dz - cz * dy),
        vy * (cz * dx - cx * dz),
        vz * (cx * dy - cy * dx),
        bz,
    );
    lemma_distribute_left(bx, vy, dz, vz, dy);
    assert(((bx * vy) * dz - (bx * vz) * dy) * cz
        == ((bx * vy) * dz) * cz - ((bx * vz) * dy) * cz) by (nonlinear_arith);
    assert(((bx * vy) * dz) * cz == ((bx * cz) * dz) * vy) by (nonlinear_arith);
    assert(((bx * vz) * dy) * cz == ((bx * cz) * dy) * vz) by (nonlinear_arith);
    lemma_distribute_left(by, vz, dx, vx, dz);
    assert(((by * vz) * dx - (by * vx) * dz) * cz
        == ((by * vz) * dx) * cz - ((by * vx) * dz) * cz) by (nonlinear_arith);
    assert(((by * vz) * dx) * cz == ((by * cz) * dx) * vz) by (nonlinear_arith);
    assert(((by * vx) * dz) * cz == ((by * cz) * dz) * vx) by (nonlinear_arith);
    lemma_distribute_left(bz, vx, dy, vy, dx);
    assert(((bz * vx) * dy - (bz * vy) * dx) * cz
        == ((bz * vx) * dy) * cz - ((bz * vy) * dx) * cz) by (nonlinear_arith);
    assert(((bz * vx) * dy) * cz == ((bz * cz) * dy) * vx) by (nonlinear_arith);
    assert(((bz * vy) * dx) * cz == ((bz * cz) * dx) * vy) by (nonlinear_arith);
    lemma_sum3_times(
        bx * (vy * dz - vz * dy),
        by * (vz * dx - vx * dz),
        bz * (vx * dy - vy * dx),
        cz,
    );
    lemma_distribute_left(bx, cy, vz, cz, vy);
    assert(((bx * cy) * vz - (bx * cz) * vy) * dz
        == ((bx * cy) * vz) * dz - ((bx * cz) * vy) * dz) by (nonlinear_arith);
    assert(((bx * cy) * vz) * dz == ((bx * cy) * dz) * vz) by (nonlinear_arith);
    assert(((bx * cz) * vy) * dz == ((bx * cz) * dz) * vy) by (nonlinear_arith);
    lemma_distribute_left(by, cz, vx, cx, vz);
    assert(((by * cz) * vx - (by * cx) * vz) * dz
        == ((by * cz) * vx) * dz - ((by * cx) * vz) * dz) by (nonlinear_arith);
    assert(((by * cz) * vx) * dz == ((by * cz) * dz) * vx) by (nonlinear_arith);
    assert(((by * cx) * vz) * dz == ((by * cx) * dz) * vz) by (nonlinear_arith);
    lemma_distribute_left(bz, cx, vy, cy, vx);
    assert(((bz * cx) * vy - (bz * cy) * vx) * dz
        == ((bz * cx) * vy) * dz - ((bz * cy) * vx) * dz) by (nonlinear_arith);
    assert(((bz * cx) * vy) * dz == ((bz * cx) * dz) * vy) by (nonlinear_arith);
    assert(((bz * cy) * vx) * dz == ((bz * cy) * dz) * vx) by (nonlinear_arith);
    lemma_sum3_times(
        bx * (cy * vz - cz * vy),
        by * (cz * vx - cx * vz),
        bz * (cx * vy - cy * vx),
        dz,
    );
}

/// Cramer's rule: the determinants with `v` in place of one column weigh the
/// columns so that they add up to `v` times the determinant.
pub proof fn lemma_cramer(b: Vec3, c: Vec3, d: Vec3, v: Vec3)
    ensures
        b.scale(det3(v, c, d)).plus(c.scale(det3(b, v, d))).plus(d.scale(det3(b, c, v)))
            == v.scale(det3(b, c, d)),
{
    lemma_cramer_x(b.x, b.y, b.z, c.x, c.y, c.z, d.x, d.y, d.z, v.x, v.y, v.z);
    lemma_cramer_y(b.x, b.y, b.z, c.x, c.y, c.z, d.x, d.y, d.z, v.x, v.y, v.z);
    lemma_cramer_z(b.x, b.y, b.z, c.x, c.y, c.z, d.x, d.y, d.z, v.x, v.y, v.z);
    let p = det3(v, c, d);
    let q = det3(b, v, d);
    let r = det3(b, c, v);
    let t = det3(b, c, d);
    assert(b.x * p == p * b.x && c.x * q == q * c.x && d.x * r == r * d.x && v.x * t == t * v.x)
        by (nonlinear_arith);
    assert(b.y * p == p * b.y && c.y * q == q * c.y && d.y * r == r * d.y && v.y * t == t * v.y)
        by (nonlinear_arith);
    assert(b.z * p == p * b.z && c.z * q == q * c.z && d.z * r == r * d.z && v.z * t == t * v.z)
        by (nonlinear_arith);
}

} // verus!
