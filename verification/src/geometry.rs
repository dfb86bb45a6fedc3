//! The integer side of the geometry kernel: classification outcomes, id
//! allocation for boolean operations, and topology validation bookkeeping.
//!
//! The floating-point computations that feed these functions (point
//! classification, coordinate hashing) stay with the geometry code; what is
//! decided from their results is here.
use vstd::prelude::*;
use vstd::string::*;

use crate::text::{decimal, strs, u64_to_decimal};

verus! {

/// Classification of a face relative to a solid.
#[derive(Debug, Clone, Copy, PartialEq, Eq, Structural)]
pub enum FaceSide {
    /// All classified vertices lie strictly inside the solid.
    Inside,
    /// All classified vertices lie strictly outside the solid.
    Outside,
    /// Some vertices inside, some outside.
    Straddling,
    /// All vertices lie on the boundary.
    On,
}

/// Location of a point relative to a solid.
#[derive(Debug, Clone, Copy, PartialEq, Eq, Structural)]
pub enum PointLocation {
    /// Strictly inside the solid.
    Inside,
    /// Strictly outside the solid.
    Outside,
    /// On the boundary.
    OnBoundary,
}

/// Dominant 2D projection plane of a face.
#[derive(Debug, Clone, Copy, PartialEq, Eq, Structural)]
pub enum ProjectionPlane {
    /// Project onto XY (normal mostly along Z).
    XY,
    /// Project onto XZ (normal mostly along Y).
    XZ,
    /// Project onto YZ (normal mostly along X).
    YZ,
}

/// The test for location `l`.
pub open spec fn loc_is(l: PointLocation) -> spec_fn(PointLocation) -> bool {
    |x: PointLocation| x == l
}

/// How many of `locs` are `l`.
pub open spec fn count_loc(locs: Seq<PointLocation>, l: PointLocation) -> nat {
    locs.filter(loc_is(l)).len()
}

/// The side of a face whose vertices have locations `locs`.
pub open spec fn side_of(locs: Seq<PointLocation>) -> FaceSide {
    let inside = count_loc(locs, PointLocation::Inside);
    let outside = count_loc(locs, PointLocation::Outside);
    if inside > 0 && outside > 0 {
        FaceSide::Straddling
    } else if inside > 0 {
        FaceSide::Inside
    } else if outside > 0 {
        FaceSide::Outside
    } else {
        FaceSide::On
    }
}

/// Classify a face from the locations of its vertices: straddling when
/// some are inside and some outside, else inside or outside when any is,
/// else on the boundary.
pub fn face_side_from(locs: &Vec<PointLocation>) -> (s: FaceSide)
    ensures
        s == side_of(locs@),
        (exists|i: int| 0 <= i < locs@.len() && locs@[i] == PointLocation::Inside) && (exists|j: int|
            0 <= j < locs@.len() && locs@[j] == PointLocation::Outside) ==> s == FaceSide::Straddling,
{
    proof {
        lemma_face_side_from_locations(locs@);
    }
    let ghost pin = loc_is(PointLocation::Inside);
    let ghost pout = loc_is(PointLocation::Outside);
    let mut inside_count: usize = 0;
    let mut outside_count: usize = 0;
    let mut i: usize = 0;
    while i < locs.len()
        invariant
            i <= locs@.len(),
            pin == loc_is(PointLocation::Inside),
            pout == loc_is(PointLocation::Outside),
            inside_count == locs@.take(i as int).filter(pin).len(),
            outside_count == locs@.take(i as int).filter(pout).len(),
            inside_count <= i,
            outside_count <= i,
        decreases locs@.len() - i,
    {
        proof {
            assert(locs@.take(i + 1) =~= locs@.take(i as int).push(locs@[i as int]));
            locs@.take(i as int).lemma_filter_push(locs@[i as int], pin);
            locs@.take(i as int).lemma_filter_push(locs@[i as int], pout);
        }
        match locs[i] {
            PointLocation::Inside => inside_count = inside_count + 1,
            PointLocation::Outside => outside_count = outside_count + 1,
            PointLocation::OnBoundary => {},
        }
        i = i + 1;
    }
    assert(locs@.take(i as int) =~= locs@);
    if inside_count > 0 && outside_count > 0 {
        FaceSide::Straddling
    } else if inside_count > 0 {
        FaceSide::Inside
    } else if outside_count > 0 {
        FaceSide::Outside
    } else {
        FaceSide::On
    }
}

/// Some location of `locs` is `l` exactly when `l` is counted at least once.
proof fn lemma_count_loc_exists(locs: Seq<PointLocation>, l: PointLocation)
    ensures
        count_loc(locs, l) > 0 <==> exists|i: int| 0 <= i < locs.len() && locs[i] == l,
    decreases locs.len(),
{
    if locs.len() == 0 {
        reveal(Seq::filter);
    } else {
        let d = locs.drop_last();
        lemma_count_loc_exists(d, l);
        assert(locs =~= d.push(locs.last()));
        d.lemma_filter_push(locs.last(), loc_is(l));
        if exists|i: int| 0 <= i < d.len() && d[i] == l {
            let i = choose|i: int| 0 <= i < d.len() && d[i] == l;
            assert(locs[i] == l);
        }
        if exists|i: int| 0 <= i < locs.len() && locs[i] == l {
            let i = choose|i: int| 0 <= i < locs.len() && locs[i] == l;
            if i < d.len() {
                assert(d[i] == l);
            }
        }
    }
}

/// How a face is classified from the locations of its vertices: it
/// straddles the other solid whenever some vertex lies inside and some
/// outside, however many of each; it is inside when some vertex is inside
/// and none outside, outside when some vertex is outside and none inside,
/// and on the boundary when every vertex is.
pub proof fn lemma_face_side_from_locations(locs: Seq<PointLocation>)
    ensures
        (exists|i: int| 0 <= i < locs.len() && locs[i] == PointLocation::Inside) && (exists|j: int|
            0 <= j < locs.len() && locs[j] == PointLocation::Outside) ==> side_of(locs) == FaceSide::Straddling,
        (exists|i: int| 0 <= i < locs.len() && locs[i] == PointLocation::Inside) && (forall|j: int|
            0 <= j < locs.len() ==> locs[j] != PointLocation::Outside) ==> side_of(locs) == FaceSide::Inside,
        (forall|i: int| 0 <= i < locs.len() ==> locs[i] != PointLocation::Inside) && (exists|j: int|
            0 <= j < locs.len() && locs[j] == PointLocation::Outside) ==> side_of(locs) == FaceSide::Outside,
        (forall|i: int| 0 <= i < locs.len() ==> locs[i] == PointLocation::OnBoundary) ==> side_of(locs)
            == FaceSide::On,
{
    lemma_count_loc_exists(locs, PointLocation::Inside);
    lemma_count_loc_exists(locs, PointLocation::Outside);
}

/// What a boolean operation does with a face of one operand.
#[derive(Debug, Clone, Copy, PartialEq, Eq, Structural)]
pub enum FaceAction {
    /// The face goes into the result whole.
    Keep,
    /// The face is split by the other operand's face planes and its pieces
    /// are judged one by one.
    Split,
    /// The face is left out.
    Drop,
}

/// The action for a face lying on `side` of the other operand, in an
/// operation that keeps what lies outside the other operand
/// (`keep_outside`: union) or inside it (intersection).
pub open spec fn action_for(side: FaceSide, keep_outside: bool) -> FaceAction {
    match side {
        FaceSide::Straddling => FaceAction::Split,
        FaceSide::Outside => if keep_outside { FaceAction::Keep } else { FaceAction::Drop },
        FaceSide::Inside => if keep_outside { FaceAction::Drop } else { FaceAction::Keep },
        FaceSide::On => FaceAction::Drop,
    }
}

/// Whether a piece of a split face lying on `side` is kept: pieces on the
/// boundary always, others when on the side the operation keeps.
pub open spec fn keeps_piece(side: FaceSide, keep_outside: bool) -> bool {
    match side {
        FaceSide::On => true,
        FaceSide::Outside => keep_outside,
        FaceSide::Inside => !keep_outside,
        FaceSide::Straddling => false,
    }
}

/// Decide what a boolean operation does with a face on `side` of the other
/// operand: straddling faces are split; a face wholly outside is kept by an
/// operation keeping the outside, one wholly inside by an operation keeping
/// the inside; all other faces are dropped.
pub fn face_action(side: FaceSide, keep_outside: bool) -> (a: FaceAction)
    ensures
        a == action_for(side, keep_outside),
{
    match side {
        FaceSide::Straddling => FaceAction::Split,
        FaceSide::Outside => if keep_outside { FaceAction::Keep } else { FaceAction::Drop },
        FaceSide::Inside => if keep_outside { FaceAction::Drop } else { FaceAction::Keep },
        FaceSide::On => FaceAction::Drop,
    }
}

/// Decide whether a piece of a split face on `side` is kept.
pub fn keep_piece(side: FaceSide, keep_outside: bool) -> (b: bool)
    ensures
        b == keeps_piece(side, keep_outside),
{
    match side {
        FaceSide::On => true,
        FaceSide::Outside => keep_outside,
        FaceSide::Inside => !keep_outside,
        FaceSide::Straddling => false,
    }
}

/// Union and intersection divide the faces that lie wholly on one side of
/// the other operand, and the pieces of split faces that do: each is kept by
/// exactly one of the two; pieces on the boundary are kept by both.
pub proof fn lemma_union_intersection_complementary(side: FaceSide)
    ensures
        side is Inside || side is Outside ==> ((action_for(side, true) is Keep) <==> (action_for(side, false) is Drop)),
        side is Inside || side is Outside ==> (keeps_piece(side, true) != keeps_piece(side, false)),
        side is On ==> keeps_piece(side, true) && keeps_piece(side, false),
        side is Straddling ==> action_for(side, true) is Split && action_for(side, false) is Split,
{
}

/// The first edge id handed out by an id generator.
pub const FIRST_EDGE_ID: u64 = 10000;

/// The first vertex id handed out by an id generator.
pub const FIRST_VERTEX_ID: u64 = 20000;

/// The largest of `ids`, or 0 when there is none.
pub open spec fn max_id(ids: Seq<u64>) -> u64
    decreases ids.len(),
{
    if ids.len() == 0 {
        0
    } else {
        let m = max_id(ids.drop_last());
        if ids.last() > m {
            ids.last()
        } else {
            m
        }
    }
}

/// No id exceeds the largest.
proof fn lemma_max_id_bounds(ids: Seq<u64>)
    ensures
        forall|i: int| 0 <= i < ids.len() ==> #[trigger] ids[i] <= max_id(ids),
    decreases ids.len(),
{
    if ids.len() > 0 {
        lemma_max_id_bounds(ids.drop_last());
        assert forall|i: int| 0 <= i < ids.len() implies #[trigger] ids[i] <= max_id(ids) by {
            if i < ids.len() - 1 {
                assert(ids[i] == ids.drop_last()[i]);
            }
        }
    }
}

/// Id generator keeping face, edge and vertex ids unique across split faces.
pub struct IdGenerator {
    next_face: u64,
    next_edge: u64,
    next_vert: u64,
}

impl IdGenerator {
    /// The next face id.
    pub closed spec fn face(&self) -> u64 {
        self.next_face
    }

    /// The next edge id.
    pub closed spec fn edge(&self) -> u64 {
        self.next_edge
    }

    /// The next vertex id.
    pub closed spec fn vert(&self) -> u64 {
        self.next_vert
    }

    /// A generator for two solids whose faces have ids `face_ids`: face ids
    /// continue past the largest, edge and vertex ids start at fixed bases.
    pub fn new(face_ids: &[u64]) -> (g: Self)
        requires
            max_id(face_ids@) < u64::MAX,
        ensures
            g.face() == max_id(face_ids@) + 1,
            forall|i: int| 0 <= i < face_ids@.len() ==> #[trigger] face_ids@[i] < g.face(),
            g.edge() == FIRST_EDGE_ID,
            g.vert() == FIRST_VERTEX_ID,
    {
        let mut m: u64 = 0;
        let mut i: usize = 0;
        while i < face_ids.len()
            invariant
                i <= face_ids@.len(),
                m == max_id(face_ids@.take(i as int)),
            decreases face_ids@.len() - i,
        {
            proof {
                assert(face_ids@.take(i + 1).drop_last() =~= face_ids@.take(i as int));
            }
            if face_ids[i] > m {
                m = face_ids[i];
            }
            i = i + 1;
        }
        assert(face_ids@.take(i as int) =~= face_ids@);
        proof {
            lemma_max_id_bounds(face_ids@);
        }
        IdGenerator { next_face: m + 1, next_edge: FIRST_EDGE_ID, next_vert: FIRST_VERTEX_ID }
    }

    /// Allocate the next face id.
    pub fn next_face(&mut self) -> (id: u64)
        requires
            old(self).face() < u64::MAX,
        ensures
            id == old(self).face(),
            final(self).face() == old(self).face() + 1,
            final(self).edge() == old(self).edge(),
            final(self).vert() == old(self).vert(),
    {
        let id = self.next_face;
        self.next_face = self.next_face + 1;
        id
    }

    /// Allocate the next edge id.
    pub fn next_edge(&mut self) -> (id: u64)
        requires
            old(self).edge() < u64::MAX,
        ensures
            id == old(self).edge(),
            final(self).edge() == old(self).edge() + 1,
            final(self).face() == old(self).face(),
            final(self).vert() == old(self).vert(),
    {
        let id = self.next_edge;
        self.next_edge = self.next_edge + 1;
        id
    }

    /// Allocate the next vertex id.
    pub fn next_vert(&mut self) -> (id: u64)
        requires
            old(self).vert() < u64::MAX,
        ensures
            id == old(self).vert(),
            final(self).vert() == old(self).vert() + 1,
            final(self).face() == old(self).face(),
            final(self).edge() == old(self).edge(),
    {
        let id = self.next_vert;
        self.next_vert = self.next_vert + 1;
        id
    }
}

/// The combined key of three quantized coordinates, modulo 2^64.
pub open spec fn point_key(x: u64, y: u64, z: u64) -> u64 {
    ((x * 1_000_003 + y * 1_000_009 + z * 1_000_013) % 0x1_0000_0000_0000_0000) as u64
}

/// Combine three quantized coordinates into one key with wrapping
/// arithmetic.
pub fn combine_point_key(x: u64, y: u64, z: u64) -> (k: u64)
    ensures
        k == point_key(x, y, z),
{
    let a = x.wrapping_mul(1_000_003);
    let b = y.wrapping_mul(1_000_009);
    let c = z.wrapping_mul(1_000_013);
    let ab = a.wrapping_add(b);
    let k = ab.wrapping_add(c);
    proof {
        let m: int = 0x1_0000_0000_0000_0000;
        let xa = x * 1_000_003;
        let yb = y * 1_000_009;
        let zc = z * 1_000_013;
        assert(a == xa % m);
        assert(b == yb % m);
        assert(c == zc % m);
        assert(ab == (a + b) % m);
        assert(k == (ab + c) % m);
        vstd::arithmetic::div_mod::lemma_add_mod_noop(xa, yb, m);
        vstd::arithmetic::div_mod::lemma_add_mod_noop(xa + yb, zc, m);
        vstd::arithmetic::div_mod::lemma_mod_twice(xa + yb, m);
        vstd::arithmetic::div_mod::lemma_mod_twice(zc, m);
    }
    k
}


/// Result of validating a solid.
#[derive(Debug, Clone)]
pub struct ValidationResult {
    /// Whether the solid is topologically valid.
    pub valid: bool,
    /// Hard errors (watertightness violations, degenerate faces, ...).
    pub issues: Vec<String>,
    /// Soft warnings (normal inconsistency, non-manifold edges).
    pub warnings: Vec<String>,
}

impl Default for ValidationResult {
    fn default() -> (r: Self)
        ensures
            r.valid,
            r.issues@.len() == 0,
            r.warnings@.len() == 0,
    {
        ValidationResult { valid: true, issues: Vec::new(), warnings: Vec::new() }
    }
}

impl ValidationResult {
    /// A valid result with no findings.
    pub fn new() -> (r: Self)
        ensures
            r.valid,
            r.issues@.len() == 0,
            r.warnings@.len() == 0,
    {
        Self::default()
    }

    /// Record a hard error; the result becomes invalid.
    pub fn add_issue(&mut self, msg: &str)
        ensures
            !final(self).valid,
            strs(final(self).issues@) == strs(old(self).issues@).push(msg@),
            final(self).warnings == old(self).warnings,
    {
        self.valid = false;
        let ghost before = self.issues@;
        self.issues.push(String::from_str(msg));
        assert(strs(self.issues@) =~= strs(before).push(msg@));
    }

    /// Record a warning; validity is unchanged.
    pub fn add_warning(&mut self, msg: &str)
        ensures
            final(self).valid == old(self).valid,
            final(self).issues == old(self).issues,
            strs(final(self).warnings@) == strs(old(self).warnings@).push(msg@),
    {
        let ghost before = self.warnings@;
        self.warnings.push(String::from_str(msg));
        assert(strs(self.warnings@) =~= strs(before).push(msg@));
    }
}

/// An undirected edge key: the two endpoint keys, smaller first.
pub open spec fn edge_key(p: (u64, u64)) -> (u64, u64) {
    if p.0 <= p.1 {
        (p.0, p.1)
    } else {
        (p.1, p.0)
    }
}

/// The keys of `ks`, each once, in order of first appearance.
pub open spec fn first_occurrences(ks: Seq<(u64, u64)>) -> Seq<(u64, u64)>
    decreases ks.len(),
{
    if ks.len() == 0 {
        Seq::empty()
    } else {
        let p = first_occurrences(ks.drop_last());
        if p.contains(ks.last()) {
            p
        } else {
            p.push(ks.last())
        }
    }
}

/// The test for key `k`.
pub open spec fn key_is(k: (u64, u64)) -> spec_fn((u64, u64)) -> bool {
    |x: (u64, u64)| x == k
}

/// How often `k` occurs in `ks`.
pub open spec fn occurrences(ks: Seq<(u64, u64)>, k: (u64, u64)) -> nat {
    ks.filter(key_is(k)).len()
}

/// The warning for an edge shared by more than two faces.
pub open spec fn non_manifold_message(k: (u64, u64), n: nat) -> Seq<char> {
    "edge ("@ + decimal(k.0 as nat) + ","@ + decimal(k.1 as nat) + ") appears "@ + decimal(n)
        + " times (non-manifold)"@
}

/// The issue for an edge used by one face only.
pub open spec fn open_edge_message(k: (u64, u64)) -> Seq<char> {
    "edge ("@ + decimal(k.0 as nat) + ","@ + decimal(k.1 as nat)
        + ") appears only once — shell is not watertight"@
}

/// The warnings edge pairing adds for the edges `edges` (pairs of endpoint
/// keys): one per edge key used more than twice, in order of first use.
pub open spec fn pairing_warnings(edges: Seq<(u64, u64)>) -> Seq<Seq<char>> {
    let keys = edges.map_values(|p: (u64, u64)| edge_key(p));
    first_occurrences(keys).filter(|k: (u64, u64)| occurrences(keys, k) > 2).map_values(
        |k: (u64, u64)| non_manifold_message(k, occurrences(keys, k)),
    )
}

/// The issues edge pairing adds: one per edge key used exactly once, in
/// order of first use.
pub open spec fn pairing_issues(edges: Seq<(u64, u64)>) -> Seq<Seq<char>> {
    let keys = edges.map_values(|p: (u64, u64)| edge_key(p));
    first_occurrences(keys).filter(|k: (u64, u64)| occurrences(keys, k) == 1).map_values(
        |k: (u64, u64)| open_edge_message(k),
    )
}

/// A key occurs among the first occurrences exactly when it occurs at all,
/// and never twice there.
pub proof fn lemma_first_occurrences(ks: Seq<(u64, u64)>)
    ensures
        forall|k: (u64, u64)| #[trigger] first_occurrences(ks).contains(k) <==> ks.contains(k),
        first_occurrences(ks).no_duplicates(),
    decreases ks.len(),
{
    if ks.len() > 0 {
        let d = ks.drop_last();
        lemma_first_occurrences(d);
        let p = first_occurrences(d);
        let f = first_occurrences(ks);
        let last = ks.last();
        assert(ks[ks.len() - 1] == last);
        assert forall|k: (u64, u64)| #[trigger] f.contains(k) <==> ks.contains(k) by {
            if ks.contains(k) {
                let i = choose|i: int| 0 <= i < ks.len() && ks[i] == k;
                if i < ks.len() - 1 {
                    assert(d[i] == k);
                    assert(d.contains(k));
                    assert(p.contains(k));
                    let j = choose|j: int| 0 <= j < p.len() && p[j] == k;
                    assert(f[j] == k);
                } else if p.contains(k) {
                    let j = choose|j: int| 0 <= j < p.len() && p[j] == k;
                    assert(f[j] == k);
                } else {
                    assert(f[p.len() as int] == k);
                }
            }
            if f.contains(k) {
                let j = choose|j: int| 0 <= j < f.len() && f[j] == k;
                if j < p.len() {
                    assert(p[j] == k);
                    assert(p.contains(k));
                    assert(d.contains(k));
                    let i = choose|i: int| 0 <= i < d.len() && d[i] == k;
                    assert(ks[i] == k);
                } else {
                    assert(k == last);
                }
            }
        }
        assert(f.no_duplicates()) by {
            assert forall|a: int, b: int| 0 <= a < f.len() && 0 <= b < f.len() && a != b implies f[a] != f[b] by {
                if a < p.len() && b < p.len() {
                    assert(f[a] == p[a] && f[b] == p[b]);
                } else if a < p.len() {
                    assert(f[a] == p[a]);
                    assert(p.contains(p[a]));
                } else {
                    assert(f[b] == p[b]);
                    assert(p.contains(p[b]));
                }
            }
        }
    }
}

/// Position of `k` in `keys`, if present.
fn find_key(keys: &Vec<(u64, u64)>, k: (u64, u64)) -> (r: Option<usize>)
    ensures
        match r {
            Some(j) => j < keys@.len() && keys@[j as int] == k,
            None => !keys@.contains(k),
        },
{
    let mut j: usize = 0;
    while j < keys.len()
        invariant
            j <= keys@.len(),
            forall|m: int| 0 <= m < j ==> keys@[m] != k,
        decreases keys@.len() - j,
    {
        if keys[j].0 == k.0 && keys[j].1 == k.1 {
            return Some(j);
        }
        j = j + 1;
    }
    None
}

/// A key that does not occur has no occurrences.
proof fn lemma_occurrences_absent(ks: Seq<(u64, u64)>, k: (u64, u64))
    requires
        !ks.contains(k),
    ensures
        occurrences(ks, k) == 0,
{
    let f = ks.filter(key_is(k));
    if f.len() > 0 {
        ks.lemma_filter_pred(key_is(k), 0);
        assert(ks.filter(key_is(k)).contains(f[0]));
        ks.lemma_filter_contains_rev(key_is(k), f[0]);
    }
}

/// Warning text for an edge key used `n` times.
fn non_manifold_text(k: (u64, u64), n: usize) -> (s: String)
    ensures
        s@ == non_manifold_message(k, n as nat),
{
    let mut s = String::from_str("edge (");
    let a = u64_to_decimal(k.0);
    s.append(a.as_str());
    s.append(",");
    let b = u64_to_decimal(k.1);
    s.append(b.as_str());
    s.append(") appears ");
    let c = u64_to_decimal(n as u64);
    s.append(c.as_str());
    s.append(" times (non-manifold)");
    s
}

/// Issue text for an edge key used once.
fn open_edge_text(k: (u64, u64)) -> (s: String)
    ensures
        s@ == open_edge_message(k),
{
    let mut s = String::from_str("edge (");
    let a = u64_to_decimal(k.0);
    s.append(a.as_str());
    s.append(",");
    let b = u64_to_decimal(k.1);
    s.append(b.as_str());
    s.append(") appears only once — shell is not watertight");
    s
}

/// Check that every edge is shared by exactly two faces. `edges` lists each
/// face edge as the keys of its two endpoints; an edge key used more than
/// twice gives a warning, one used once an issue (the shell is open).
pub fn check_edge_pairing(edges: &Vec<(u64, u64)>, result: &mut ValidationResult)
    ensures
        strs(final(result).warnings@) == strs(old(result).warnings@) + pairing_warnings(edges@),
        strs(final(result).issues@) == strs(old(result).issues@) + pairing_issues(edges@),
        final(result).valid == (old(result).valid && pairing_issues(edges@).len() == 0),
{
    let ghost keys_all = edges@.map_values(|p: (u64, u64)| edge_key(p));
    let mut keys: Vec<(u64, u64)> = Vec::new();
    let mut counts: Vec<usize> = Vec::new();
    let mut i: usize = 0;
    while i < edges.len()
        invariant
            i <= edges@.len(),
            keys_all == edges@.map_values(|p: (u64, u64)| edge_key(p)),
            keys@ == first_occurrences(keys_all.take(i as int)),
            counts@.len() == keys@.len(),
            forall|j: int| 0 <= j < keys@.len() ==> #[trigger] counts@[j] == occurrences(keys_all.take(i as int), keys@[j]),
            forall|j: int| 0 <= j < keys@.len() ==> #[trigger] counts@[j] <= i,
        decreases edges@.len() - i,
    {
        let (s, e) = edges[i];
        let k = if s <= e { (s, e) } else { (e, s) };
        let ghost pre = keys_all.take(i as int);
        let ghost post = keys_all.take(i + 1);
        proof {
            assert(post =~= pre.push(k));
            assert(post.drop_last() =~= pre);
            lemma_first_occurrences(pre);
            assert forall|x: (u64, u64)| occurrences(post, x) == occurrences(pre, x) + if x == k { 1nat } else { 0nat } by {
                pre.lemma_filter_push(k, key_is(x));
            }
        }
        match find_key(&keys, k) {
            Some(j) => {
                let c = counts[j];
                counts.set(j, c + 1);
                assert(keys@.contains(k));
            },
            None => {
                proof {
                    assert(!pre.contains(k));
                    lemma_occurrences_absent(pre, k);
                }
                keys.push(k);
                counts.push(1);
            },
        }
        assert(keys@ =~= first_occurrences(post));
        i = i + 1;
    }
    assert(keys_all.take(i as int) =~= keys_all);
    let ghost distinct = keys@;
    let ghost wpred = |x: (u64, u64)| occurrences(keys_all, x) > 2;
    let ghost wmsg = |x: (u64, u64)| non_manifold_message(x, occurrences(keys_all, x));
    let ghost w0 = strs(result.warnings@);
    let mut j: usize = 0;
    while j < keys.len()
        invariant
            j <= keys@.len(),
            keys@ == distinct,
            counts@.len() == keys@.len(),
            forall|m: int| 0 <= m < keys@.len() ==> #[trigger] counts@[m] == occurrences(keys_all, keys@[m]),
            wpred == (|x: (u64, u64)| occurrences(keys_all, x) > 2),
            wmsg == (|x: (u64, u64)| non_manifold_message(x, occurrences(keys_all, x))),
            strs(result.warnings@) == w0 + distinct.take(j as int).filter(wpred).map_values(wmsg),
            result.issues == old(result).issues,
            result.valid == old(result).valid,
        decreases keys@.len() - j,
    {
        proof {
            assert(distinct.take(j + 1) =~= distinct.take(j as int).push(distinct[j as int]));
            distinct.take(j as int).lemma_filter_push(distinct[j as int], wpred);
        }
        let ghost before = distinct.take(j as int).filter(wpred);
        if counts[j] > 2 {
            let msg = non_manifold_text(keys[j], counts[j]);
            result.add_warning(msg.as_str());
            assert(before.push(distinct[j as int]).map_values(wmsg) =~= before.map_values(wmsg).push(wmsg(distinct[j as int])));
        }
        j = j + 1;
    }
    assert(distinct.take(j as int) =~= distinct);
    let ghost ipred = |x: (u64, u64)| occurrences(keys_all, x) == 1;
    let ghost imsg = |x: (u64, u64)| open_edge_message(x);
    let ghost i0 = strs(result.issues@);
    let mut j: usize = 0;
    while j < keys.len()
        invariant
            j <= keys@.len(),
            keys@ == distinct,
            counts@.len() == keys@.len(),
            forall|m: int| 0 <= m < keys@.len() ==> #[trigger] counts@[m] == occurrences(keys_all, keys@[m]),
            ipred == (|x: (u64, u64)| occurrences(keys_all, x) == 1),
            imsg == (|x: (u64, u64)| open_edge_message(x)),
            strs(result.issues@) == i0 + distinct.take(j as int).filter(ipred).map_values(imsg),
            strs(result.warnings@) == w0 + distinct.filter(wpred).map_values(wmsg),
            result.valid == (old(result).valid && distinct.take(j as int).filter(ipred).len() == 0),
        decreases keys@.len() - j,
    {
        proof {
            assert(distinct.take(j + 1) =~= distinct.take(j as int).push(distinct[j as int]));
            distinct.take(j as int).lemma_filter_push(distinct[j as int], ipred);
        }
        let ghost before = distinct.take(j as int).filter(ipred);
        if counts[j] == 1 {
            let msg = open_edge_text(keys[j]);
            result.add_issue(msg.as_str());
            assert(before.push(distinct[j as int]).map_values(imsg) =~= before.map_values(imsg).push(imsg(distinct[j as int])));
        }
        j = j + 1;
    }
    assert(distinct.take(j as int) =~= distinct);
}


/// A closed shell, where every edge key is used exactly twice, passes edge
/// pairing without findings.
pub proof fn lemma_closed_shell_passes(edges: Seq<(u64, u64)>)
    requires
        forall|i: int| 0 <= i < edges.len() ==> occurrences(edges.map_values(|p: (u64, u64)| edge_key(p)), #[trigger] edge_key(edges[i])) == 2,
    ensures
        pairing_warnings(edges).len() == 0,
        pairing_issues(edges).len() == 0,
{
    let keys = edges.map_values(|p: (u64, u64)| edge_key(p));
    let d = first_occurrences(keys);
    lemma_first_occurrences(keys);
    assert forall|j: int| 0 <= j < d.len() implies occurrences(keys, #[trigger] d[j]) == 2 by {
        assert(d.contains(d[j]));
        let i = choose|i: int| 0 <= i < keys.len() && keys[i] == d[j];
        assert(keys[i] == edge_key(edges[i]));
    }
    let wp = |k: (u64, u64)| occurrences(keys, k) > 2;
    let ip = |k: (u64, u64)| occurrences(keys, k) == 1;
    d.lemma_all_neg_filter_empty(wp);
    d.lemma_all_neg_filter_empty(ip);
}

} // verus!
