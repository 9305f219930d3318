use vstd::prelude::*;
use crate::table::ImageTable;

verus! {

/// One line of the assembly source that embeds the programs.
#[derive(Clone, Copy, Debug, PartialEq, Eq, Structural)]
pub enum AsmLine {
    /// The preamble: the exported table symbol, the data section and its alignment.
    Preamble,
    /// A 64-bit word written in hexadecimal.
    QuadHex(u64),
    /// A 64-bit word written in decimal.
    QuadDec(u64),
    /// A 64-bit word holding the address of boundary label `k`.
    QuadLabel(u64),
    /// The definition of boundary label `k`: program `k` starts here, program `k - 1` ends.
    Label(u64),
    /// The raw bytes of program `i`'s stripped binary.
    IncBin(u64),
}

/// The header: preamble, base, step, count, then a pointer to each of the `n + 1` boundaries.
pub open spec fn header_spec(base: u64, step: u64, n: nat) -> Seq<AsmLine> {
    seq![AsmLine::Preamble, AsmLine::QuadHex(base), AsmLine::QuadHex(step), AsmLine::QuadDec(n as u64)]
        + Seq::new(n + 1, |k: int| AsmLine::QuadLabel(k as u64))
}

/// The body: for each program its start boundary and its bytes, then the final boundary.
pub open spec fn body_spec(n: nat) -> Seq<AsmLine> {
    Seq::new(
        2 * n + 1,
        |j: int|
            if j == 2 * n {
                AsmLine::Label(n as u64)
            } else if j % 2 == 0 {
                AsmLine::Label((j / 2) as u64)
            } else {
                AsmLine::IncBin((j / 2) as u64)
            },
    )
}

/// The whole source for a table with base `base`, step `step` and `n` programs.
pub open spec fn artifact_spec(base: u64, step: u64, n: nat) -> Seq<AsmLine> {
    header_spec(base, step, n) + body_spec(n)
}

/// The assembly source that embeds the programs of `t`: the header, then every program's
/// bytes between its two boundary labels.
pub fn emit(t: &ImageTable) -> (r: Vec<AsmLine>)
    requires
        t.wf(),
    ensures
        r@ == artifact_spec(t.base, t.step, t.count_spec() as nat),
{
    let n = t.count();
    let n64 = n as u64;
    let mut r: Vec<AsmLine> = Vec::new();
    r.push(AsmLine::Preamble);
    r.push(AsmLine::QuadHex(t.base));
    r.push(AsmLine::QuadHex(t.step));
    r.push(AsmLine::QuadDec(n64));
    let ghost head = r@;
    let len = t.bounds.len();
    assert(len as int <= u64::MAX);
    assert(n < u64::MAX);
    let mut k: u64 = 0;
    while k <= n64
        invariant
            n64 == n,
            n + 1 == t.bounds@.len(),
            n < u64::MAX,
            k <= n + 1,
            r@ == head + Seq::new(k as nat, |j: int| AsmLine::QuadLabel(j as u64)),
        decreases n + 1 - k,
    {
        r.push(AsmLine::QuadLabel(k));
        k = k + 1;
        assert(r@ =~= head + Seq::new(k as nat, |j: int| AsmLine::QuadLabel(j as u64)));
    }
    let ghost hdr = r@;
    assert(hdr =~= header_spec(t.base, t.step, n as nat));
    let mut i: u64 = 0;
    while i < n64
        invariant
            n64 == n,
            n + 1 == t.bounds@.len(),
            i <= n,
            r@ == hdr + body_spec(n as nat).take(2 * i),
        decreases n - i,
    {
        r.push(AsmLine::Label(i));
        r.push(AsmLine::IncBin(i));
        i = i + 1;
        assert(r@ =~= hdr + body_spec(n as nat).take(2 * i));
    }
    r.push(AsmLine::Label(n64));
    assert(r@ =~= hdr + body_spec(n as nat));
    r
}

/// The label that ends program `i` is the very label the header points to as the start of
/// program `i + 1` (or as the end of the last program): header slot `i + 1` and the line right
/// after program `i`'s bytes name the same boundary.
pub proof fn lemma_label_identity(base: u64, step: u64, n: nat, i: int)
    requires
        0 <= i < n,
        n < u64::MAX,
    ensures
        ({
            let a = artifact_spec(base, step, n);
            let slot = 4 + i + 1;
            let bytes = 4 + n + 1 + 2 * i + 1;
            &&& a[bytes] == AsmLine::IncBin(i as u64)
            &&& a[slot] == AsmLine::QuadLabel((i + 1) as u64)
            &&& a[bytes + 1] == AsmLine::Label((i + 1) as u64)
        }),
{
    let a = artifact_spec(base, step, n);
    assert(a[4 + n + 1 + 2 * i + 1] == body_spec(n)[2 * i + 1]);
    assert(a[4 + i + 1] == header_spec(base, step, n)[4 + i + 1]);
    assert(a[4 + n + 1 + 2 * i + 2] == body_spec(n)[2 * i + 2]);
    assert((2 * i + 1) / 2 == i);
    assert((2 * i + 2) / 2 == i + 1);
}

} // verus!
