use vstd::prelude::*;
use crate::placement::Placement;

verus! {

/// One program to build: its name and the base address it is linked for.
#[derive(Clone, Debug)]
pub struct BuildStep {
    pub name: Vec<u8>,
    pub base_address: u64,
}

/// The programs to build, in index order: program `i` is `names[i]`, linked for
/// `p.address(i)`. `None` when the last address does not fit in 64 bits.
pub fn build_plan(p: Placement, names: &Vec<Vec<u8>>) -> (r: Option<Vec<BuildStep>>)
    ensures
        r.is_some() <==> p.fits(names@.len() as int),
        r matches Some(steps) ==> {
            &&& steps@.len() == names@.len()
            &&& forall|i: int|
                0 <= i < steps@.len() ==> {
                    &&& (#[trigger] steps@[i]).name@ == names@[i]@
                    &&& steps@[i].base_address == p.address(i)
                }
        },
{
    let bases = match p.assign_bases(names.len()) {
        Some(b) => b,
        None => return None,
    };
    let mut steps: Vec<BuildStep> = Vec::new();
    let mut i: usize = 0;
    while i < names.len()
        invariant
            i <= names@.len(),
            bases@.len() == names@.len(),
            forall|k: int| 0 <= k < names@.len() ==> #[trigger] bases@[k] == p.address(k),
            steps@.len() == i,
            forall|k: int|
                0 <= k < i ==> {
                    &&& (#[trigger] steps@[k]).name@ == names@[k]@
                    &&& steps@[k].base_address == p.address(k)
                },
        decreases names@.len() - i,
    {
        let name = copy_name(&names[i]);
        steps.push(BuildStep { name, base_address: bases[i] });
        i = i + 1;
    }
    Some(steps)
}

/// A fresh copy of a name.
fn copy_name(s: &Vec<u8>) -> (r: Vec<u8>)
    ensures
        r@ == s@,
{
    let mut r: Vec<u8> = Vec::new();
    let mut i: usize = 0;
    while i < s.len()
        invariant
            i <= s@.len(),
            r@ == s@.take(i as int),
        decreases s@.len() - i,
    {
        r.push(s[i]);
        i = i + 1;
        assert(r@ =~= s@.take(i as int));
    }
    assert(r@ =~= s@);
    r
}

} // verus!
