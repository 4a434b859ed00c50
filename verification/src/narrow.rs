//! The feature ids that let a contact point keep its impulse across steps.
//!
//! A box-box manifold point is named by the pair of corners that produced it:
//! the reference corner that cut it and the incident corner it came from. The
//! same physical corner must carry the same id from one step to the next or
//! its warm-start impulse is thrown away.

use vstd::prelude::*;

verus! {

/// Two feature indices packed into one id: the reference corner in the high
/// byte, the incident corner in the low byte.
pub open spec fn make_id_spec(reference_corner: usize, incident_corner: usize) -> u16 {
    (((reference_corner as u16) << 8u16) | (incident_corner as u16)) as u16
}

/// Two feature indices packed into one id.
pub fn make_id(reference_corner: usize, incident_corner: usize) -> (id: u16)
    ensures
        id == make_id_spec(reference_corner, incident_corner),
{
    ((reference_corner as u16) << 8u16) | incident_corner as u16
}

/// For corners below 256 the id is the two corners in base 256, so distinct
/// corner pairs get distinct ids.
pub proof fn lemma_make_id_names_both_corners(reference_corner: usize, incident_corner: usize)
    requires
        reference_corner < 256,
        incident_corner < 256,
    ensures
        make_id_spec(reference_corner, incident_corner) == reference_corner * 256
            + incident_corner,
{
    let r = reference_corner as u16;
    let i = incident_corner as u16;
    assert(((r << 8u16) | i) == r * 256 + i) by (bit_vector)
        requires
            r < 256,
            i < 256,
    ;
}

/// The ids of the two points a box-box clip produces.
///
/// `reference_edge` is the face the incident face is clipped against and
/// `incident_edge` the face clipped; each runs from its corner to the next,
/// counter-clockwise. The first point lies at the reference face's first
/// corner and the incident face's second; the second at the reference face's
/// second corner and the incident face's first. Built after the flip, so the
/// ids name the corners of the same boxes whichever of them was the reference.
pub open spec fn point_ids_spec(reference_edge: usize, incident_edge: usize, flip: bool) -> (
    u16,
    u16,
) {
    let r1 = reference_edge;
    let r2 = ((reference_edge + 1) % 4) as usize;
    let i1 = incident_edge;
    let i2 = ((incident_edge + 1) % 4) as usize;
    if flip {
        (make_id_spec(i2, r1), make_id_spec(i1, r2))
    } else {
        (make_id_spec(r1, i2), make_id_spec(r2, i1))
    }
}

/// The ids of the two points a box-box clip produces.
pub fn point_ids(reference_edge: usize, incident_edge: usize, flip: bool) -> (ids: (u16, u16))
    requires
        reference_edge < 4,
        incident_edge < 4,
    ensures
        ids == point_ids_spec(reference_edge, incident_edge, flip),
{
    let r1 = reference_edge;
    let r2 = (reference_edge + 1) % 4;
    let i1 = incident_edge;
    let i2 = (incident_edge + 1) % 4;
    if flip {
        (make_id(i2, r1), make_id(i1, r2))
    } else {
        (make_id(r1, i2), make_id(r2, i1))
    }
}

/// The two points of a manifold never share an id, so each keeps its own
/// warm-start impulse.
pub proof fn lemma_point_ids_differ(reference_edge: usize, incident_edge: usize, flip: bool)
    requires
        reference_edge < 4,
        incident_edge < 4,
    ensures
        point_ids_spec(reference_edge, incident_edge, flip).0 != point_ids_spec(
            reference_edge,
            incident_edge,
            flip,
        ).1,
{
    let r1 = reference_edge;
    let r2 = ((reference_edge + 1) % 4) as usize;
    let i1 = incident_edge;
    let i2 = ((incident_edge + 1) % 4) as usize;
    lemma_make_id_names_both_corners(i2, r1);
    lemma_make_id_names_both_corners(i1, r2);
    lemma_make_id_names_both_corners(r1, i2);
    lemma_make_id_names_both_corners(r2, i1);
}

} // verus!
