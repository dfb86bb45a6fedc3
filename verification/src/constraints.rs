//! Constraint system bookkeeping: which variables hold each point's
//! coordinates.
use vstd::prelude::*;

verus! {

/// The variable of the first pair for `point_id`, if any.
pub open spec fn first_var(pairs: Seq<(u64, u64)>, point_id: u64) -> Option<u64>
    decreases pairs.len(),
{
    if pairs.len() == 0 {
        None
    } else if pairs[0].0 == point_id {
        Some(pairs[0].1)
    } else {
        first_var(pairs.drop_first(), point_id)
    }
}

/// The variable paired first with `point_id` in `pairs`.
fn lookup(pairs: &Vec<(u64, u64)>, point_id: u64) -> (r: Option<u64>)
    ensures
        r == first_var(pairs@, point_id),
{
    let mut i: usize = 0;
    assert(pairs@.skip(0) =~= pairs@);
    while i < pairs.len()
        invariant
            i <= pairs@.len(),
            first_var(pairs@, point_id) == first_var(pairs@.skip(i as int), point_id),
        decreases pairs@.len() - i,
    {
        assert(pairs@.skip(i as int).drop_first() =~= pairs@.skip(i + 1));
        assert(pairs@.skip(i as int)[0] == pairs@[i as int]);
        if pairs[i].0 == point_id {
            return Some(pairs[i].1);
        }
        i = i + 1;
    }
    None
}

/// Maps point ids to the ids of the variables holding their x, y and z
/// coordinates.
#[derive(Debug, Clone, Default)]
pub struct PointMapping {
    pub x_vars: Vec<(u64, u64)>,
    pub y_vars: Vec<(u64, u64)>,
    pub z_vars: Vec<(u64, u64)>,
}

impl PointMapping {
    /// An empty mapping.
    pub fn new() -> (m: Self)
        ensures
            m.x_vars@.len() == 0,
            m.y_vars@.len() == 0,
            m.z_vars@.len() == 0,
    {
        PointMapping { x_vars: Vec::new(), y_vars: Vec::new(), z_vars: Vec::new() }
    }

    /// Record the coordinate variables of a point.
    pub fn add_point(&mut self, point_id: u64, x_var: u64, y_var: u64, z_var: u64)
        ensures
            final(self).x_vars@ == old(self).x_vars@.push((point_id, x_var)),
            final(self).y_vars@ == old(self).y_vars@.push((point_id, y_var)),
            final(self).z_vars@ == old(self).z_vars@.push((point_id, z_var)),
    {
        self.x_vars.push((point_id, x_var));
        self.y_vars.push((point_id, y_var));
        self.z_vars.push((point_id, z_var));
    }

    /// The x, y and z variable ids recorded first for `point_id`.
    pub fn var_ids(&self, point_id: u64) -> (r: (Option<u64>, Option<u64>, Option<u64>))
        ensures
            r.0 == first_var(self.x_vars@, point_id),
            r.1 == first_var(self.y_vars@, point_id),
            r.2 == first_var(self.z_vars@, point_id),
    {
        (lookup(&self.x_vars, point_id), lookup(&self.y_vars, point_id), lookup(&self.z_vars, point_id))
    }
}

} // verus!
