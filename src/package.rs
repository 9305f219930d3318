use vstd::prelude::*;
use crate::artifact::{artifact_spec, AsmLine};
use crate::placement::{Placement, Profile, CH2_APP_BASE, CH3_APP_BASE, CH3_APP_STEP};
use crate::plan::BuildStep;
use crate::table::{lemma_table_sizes, ImageTable};

verus! {

/// Under the single-slot profile every planned program is linked at the one shared base; under
/// the fixed-slot profile program `i` is linked at `CH3_APP_BASE + i * CH3_APP_STEP`.
pub proof fn lemma_profile_plan(pr: Profile, names: Seq<Vec<u8>>, steps: Seq<BuildStep>)
    requires
        steps.len() == names.len(),
        forall|i: int|
            0 <= i < steps.len() ==> (#[trigger] steps[i]).base_address == pr.placement_spec().address(i),
    ensures
        pr == Profile::Ch2 ==> forall|i: int|
            0 <= i < steps.len() ==> (#[trigger] steps[i]).base_address == CH2_APP_BASE,
        pr == Profile::Ch3 ==> forall|i: int|
            0 <= i < steps.len() ==> (#[trigger] steps[i]).base_address == CH3_APP_BASE + i
                * CH3_APP_STEP,
{
    assert forall|i: int| 0 <= i < steps.len() && pr == Profile::Ch2 implies (
    #[trigger] steps[i]).base_address == CH2_APP_BASE by {
        assert(steps[i].base_address == pr.placement_spec().address(i));
        assert(i * 0 == 0);
    }
}

/// Packaging `n >= 1` programs of the given stripped sizes under placement `p`: the emitted
/// header carries the base and step in hexadecimal and `n` in decimal, then points at the
/// `n + 1` boundary labels in order, and consecutive labels lie exactly one program's size
/// apart.
pub proof fn lemma_packaging(p: Placement, sizes: Seq<u64>, t: ImageTable, lines: Seq<AsmLine>)
    requires
        1 <= sizes.len() < usize::MAX,
        t.base == p.base,
        t.step == p.step,
        t.wf(),
        t.lays_out(sizes),
        lines == artifact_spec(t.base, t.step, t.count_spec() as nat),
    ensures
        t.count_spec() == sizes.len(),
        lines[1] == AsmLine::QuadHex(p.base),
        lines[2] == AsmLine::QuadHex(p.step),
        lines[3] == AsmLine::QuadDec(sizes.len() as u64),
        forall|k: int| 0 <= k <= sizes.len() ==> #[trigger] lines[4 + k] == AsmLine::QuadLabel(k as u64),
        forall|i: int| 0 <= i < sizes.len() ==> #[trigger] t.size_spec(i) == sizes[i],
{
    lemma_table_sizes(t, sizes);
    let n = sizes.len();
    assert forall|k: int| 0 <= k <= n implies #[trigger] lines[4 + k] == AsmLine::QuadLabel(
        k as u64,
    ) by {
        assert(lines[4 + k] == crate::artifact::header_spec(t.base, t.step, n as nat)[4 + k]);
    }
}

} // verus!
