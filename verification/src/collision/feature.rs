//! Contact feature ids: which piece of geometry produced a contact point.
//!
//! A circle's single contact is always feature `0`. A polygon–polygon contact
//! packs four small fields into one `u32`: bit 24 is the flip flag (whether
//! the reference face belongs to body `b`), bits 16–23 the reference-face
//! index, bits 8–15 the incident-face index and bits 0–7 which clipped
//! endpoint of the incident edge the point is (`0` or `1`). Each index is
//! kept to its 8-bit field.
use vstd::prelude::*;

verus! {

/// Feature id of every circle contact.
pub const CIRCLE_FEATURE: u32 = 0;

/// The packed id of a polygon contact, as a number.
pub open spec fn packed_feature(flip: bool, ref_face: nat, incident_face: nat, endpoint: nat) -> nat {
    (if flip { 1nat } else { 0nat }) * 0x100_0000 + (ref_face % 256) * 0x1_0000 + (incident_face
        % 256) * 0x100 + endpoint % 256
}

/// The flip flag stored in feature id `f` (bit 24).
pub open spec fn feature_flip(f: nat) -> bool {
    (f / 0x100_0000) % 2 == 1
}

/// The reference-face field of feature id `f` (bits 16–23).
pub open spec fn feature_ref_face(f: nat) -> nat {
    (f / 0x1_0000) % 256
}

/// The incident-face field of feature id `f` (bits 8–15).
pub open spec fn feature_incident_face(f: nat) -> nat {
    (f / 0x100) % 256
}

/// The endpoint field of feature id `f` (bits 0–7).
pub open spec fn feature_endpoint(f: nat) -> nat {
    f % 256
}

/// Packs a polygon–polygon contact's geometric feature into one id.
pub fn pack_feature(flip: bool, ref_face: usize, incident_face: usize, endpoint: usize) -> (f: u32)
    ensures
        f == packed_feature(flip, ref_face as nat, incident_face as nat, endpoint as nat),
        f < 0x200_0000,
        feature_flip(f as nat) == flip,
        feature_ref_face(f as nat) == ref_face % 256,
        feature_incident_face(f as nat) == incident_face % 256,
        feature_endpoint(f as nat) == endpoint % 256,
{
    proof {
        lemma_feature_fields(flip, ref_face as nat, incident_face as nat, endpoint as nat);
    }
    let flip_bit: u32 = if flip {
        1
    } else {
        0
    };
    let r = (ref_face % 256) as u32;
    let i = (incident_face % 256) as u32;
    let e = (endpoint % 256) as u32;
    flip_bit * 0x100_0000 + r * 0x1_0000 + i * 0x100 + e
}

/// Every field can be read back from a packed id: the flip flag as given,
/// and each index modulo its 8-bit field width.
pub proof fn lemma_feature_fields(flip: bool, ref_face: nat, incident_face: nat, endpoint: nat)
    ensures
        ({
            let f = packed_feature(flip, ref_face, incident_face, endpoint);
            &&& f < 0x200_0000
            &&& feature_flip(f) == flip
            &&& feature_ref_face(f) == ref_face % 256
            &&& feature_incident_face(f) == incident_face % 256
            &&& feature_endpoint(f) == endpoint % 256
        }),
{
    let fl: nat = if flip { 1nat } else { 0nat };
    let r = ref_face % 256;
    let i = incident_face % 256;
    let e = endpoint % 256;
    let f = fl * 0x100_0000 + r * 0x1_0000 + i * 0x100 + e;
    assert(f == packed_feature(flip, ref_face, incident_face, endpoint));
    assert(f < 0x200_0000) by (nonlinear_arith)
        requires
            f == fl * 0x100_0000 + r * 0x1_0000 + i * 0x100 + e,
            fl <= 1,
            r < 256,
            i < 256,
            e < 256,
    ;
    assert(f / 0x100_0000 == fl) by (nonlinear_arith)
        requires
            f == fl * 0x100_0000 + r * 0x1_0000 + i * 0x100 + e,
            fl <= 1,
            r < 256,
            i < 256,
            e < 256,
    ;
    assert(f / 0x1_0000 == fl * 256 + r) by (nonlinear_arith)
        requires
            f == fl * 0x100_0000 + r * 0x1_0000 + i * 0x100 + e,
            r < 256,
            i < 256,
            e < 256,
    ;
    assert((fl * 256 + r) % 256 == r) by (nonlinear_arith)
        requires
            r < 256,
    ;
    assert(f / 0x100 == fl * 0x1_0000 + r * 256 + i) by (nonlinear_arith)
        requires
            f == fl * 0x100_0000 + r * 0x1_0000 + i * 0x100 + e,
            i < 256,
            e < 256,
    ;
    assert((fl * 0x1_0000 + r * 256 + i) % 256 == i) by (nonlinear_arith)
        requires
            i < 256,
    ;
    assert(f % 256 == e) by (nonlinear_arith)
        requires
            f == fl * 0x100_0000 + r * 0x1_0000 + i * 0x100 + e,
            e < 256,
    ;
}

/// An id below 2^25 is determined by its four fields: two such ids that
/// agree on the flip flag, both face indices and the endpoint are equal. With
/// the bound and field read-back of `pack_feature`, this pins every bit of a
/// packed id, bits 25–31 included (they are zero).
pub proof fn lemma_feature_determined_by_fields(f: nat, g: nat)
    requires
        f < 0x200_0000,
        g < 0x200_0000,
        feature_flip(f) == feature_flip(g),
        feature_ref_face(f) == feature_ref_face(g),
        feature_incident_face(f) == feature_incident_face(g),
        feature_endpoint(f) == feature_endpoint(g),
    ensures
        f == g,
{
    lemma_decompose(f);
    lemma_decompose(g);
    assert(f / 0x100_0000 == g / 0x100_0000);
}

proof fn lemma_decompose(f: nat)
    requires
        f < 0x200_0000,
    ensures
        f / 0x100_0000 <= 1,
        (f / 0x100_0000 == 1) == feature_flip(f),
        f == (f / 0x100_0000) * 0x100_0000 + feature_ref_face(f) * 0x1_0000
            + feature_incident_face(f) * 0x100 + feature_endpoint(f),
{
    let h = f / 0x100_0000;
    let r = (f / 0x1_0000) % 256;
    let i = (f / 0x100) % 256;
    let e = f % 256;
    assert(h <= 1) by (nonlinear_arith)
        requires
            f < 0x200_0000,
            h == f / 0x100_0000,
    ;
    assert(f / 0x1_0000 == h * 256 + r) by (nonlinear_arith)
        requires
            h == f / 0x100_0000,
            r == (f / 0x1_0000) % 256,
    ;
    assert(f / 0x100 == (f / 0x1_0000) * 256 + i) by (nonlinear_arith)
        requires
            i == (f / 0x100) % 256,
    ;
    assert(f == (f / 0x100) * 256 + e) by (nonlinear_arith)
        requires
            e == f % 256,
    ;
}

/// Two polygon contacts get the same id only when they agree on the flip
/// flag and on every index (within its 8-bit field). In particular the two
/// clipped endpoints of one incident edge always get different ids.
pub proof fn lemma_feature_injective(
    flip1: bool,
    ref1: nat,
    inc1: nat,
    end1: nat,
    flip2: bool,
    ref2: nat,
    inc2: nat,
    end2: nat,
)
    requires
        packed_feature(flip1, ref1, inc1, end1) == packed_feature(flip2, ref2, inc2, end2),
    ensures
        flip1 == flip2,
        ref1 % 256 == ref2 % 256,
        inc1 % 256 == inc2 % 256,
        end1 % 256 == end2 % 256,
{
    lemma_feature_fields(flip1, ref1, inc1, end1);
    lemma_feature_fields(flip2, ref2, inc2, end2);
}

} // verus!
