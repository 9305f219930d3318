use vstd::prelude::*;
use crate::placement::Placement;

verus! {

/// The offset at which program `i` starts when the programs of `sizes` are laid end to end:
/// the sum of the sizes before it.
pub open spec fn offset(sizes: Seq<u64>, i: int) -> int
    decreases i,
{
    if i <= 0 {
        0
    } else {
        offset(sizes, i - 1) + sizes[i - 1]
    }
}

/// The table the supervisor reads at boot: the placement, and `count + 1` label offsets into
/// the concatenated program bytes; program `i` occupies `[bounds[i], bounds[i + 1])`.
#[derive(Clone, Debug)]
pub struct ImageTable {
    pub base: u64,
    pub step: u64,
    pub bounds: Vec<u64>,
}

impl ImageTable {
    /// The bounds start at zero, one more than there are programs, and never decrease.
    pub open spec fn wf(self) -> bool {
        &&& self.bounds@.len() >= 1
        &&& self.bounds@[0] == 0
        &&& forall|i: int|
            0 <= i < self.bounds@.len() - 1 ==> #[trigger] self.bounds@[i] <= self.bounds@[i + 1]
    }

    /// The number of programs the table describes.
    pub open spec fn count_spec(self) -> int {
        self.bounds@.len() - 1
    }

    /// The byte length of program `i`: the distance between its two labels.
    pub open spec fn size_spec(self, i: int) -> int {
        self.bounds@[i + 1] - self.bounds@[i]
    }

    /// The table lays out programs of exactly the sizes `sizes`, in order, with no gap.
    pub open spec fn lays_out(self, sizes: Seq<u64>) -> bool {
        &&& self.bounds@.len() == sizes.len() + 1
        &&& forall|i: int| 0 <= i <= sizes.len() ==> #[trigger] self.bounds@[i] == offset(sizes, i)
    }

    /// The number of programs the table describes.
    pub fn count(&self) -> (r: usize)
        requires
            self.wf(),
        ensures
            r == self.count_spec(),
    {
        self.bounds.len() - 1
    }

    /// The byte length of each program, read back from the labels.
    pub fn image_sizes(&self) -> (r: Vec<u64>)
        requires
            self.wf(),
        ensures
            r@.len() == self.count_spec(),
            forall|i: int| 0 <= i < r@.len() ==> #[trigger] r@[i] == self.size_spec(i),
    {
        let n = self.bounds.len() - 1;
        let mut r: Vec<u64> = Vec::new();
        let mut i: usize = 0;
        while i < n
            invariant
                self.wf(),
                n == self.count_spec(),
                i <= n,
                r@.len() == i,
                forall|k: int| 0 <= k < i ==> #[trigger] r@[k] == self.size_spec(k),
            decreases n - i,
        {
            assert(self.bounds@[i as int] <= self.bounds@[i + 1]);
            r.push(self.bounds[i + 1] - self.bounds[i]);
            i = i + 1;
        }
        r
    }
}

/// The header as 64-bit words: base, step, count, then the `count + 1` label offsets.
pub open spec fn header_words_spec(t: ImageTable) -> Seq<u64> {
    seq![t.base, t.step, (t.bounds@.len() - 1) as u64] + t.bounds@
}

/// Whether `w` is a well-formed header: a count that matches the number of offsets that
/// follow, offsets that start at zero and never decrease.
pub open spec fn header_ok(w: Seq<u64>) -> bool {
    &&& w.len() >= 4
    &&& w[2] == w.len() - 4
    &&& w[3] == 0
    &&& forall|i: int| 3 <= i < w.len() - 1 ==> #[trigger] w[i] <= w[i + 1]
}

impl ImageTable {
    /// The header as 64-bit words: base, step, count, then the label offsets.
    pub fn header_words(&self) -> (r: Vec<u64>)
        requires
            self.wf(),
        ensures
            r@ == header_words_spec(*self),
    {
        let n = self.bounds.len() - 1;
        let len = self.bounds.len();
        assert(len as int <= u64::MAX);
        let mut r: Vec<u64> = Vec::new();
        r.push(self.base);
        r.push(self.step);
        r.push(n as u64);
        let ghost head = r@;
        let mut i: usize = 0;
        while i < self.bounds.len()
            invariant
                i <= self.bounds@.len(),
                r@ == head + self.bounds@.take(i as int),
            decreases self.bounds@.len() - i,
        {
            r.push(self.bounds[i]);
            i = i + 1;
            assert(r@ =~= head + self.bounds@.take(i as int));
        }
        assert(self.bounds@.take(i as int) =~= self.bounds@);
        r
    }
}

/// Reads an image table back from its header words; `None` when they are not a well-formed
/// header.
pub fn parse_header(w: &Vec<u64>) -> (r: Option<ImageTable>)
    ensures
        r.is_some() <==> header_ok(w@),
        r matches Some(t) ==> {
            &&& t.wf()
            &&& t.base == w@[0]
            &&& t.step == w@[1]
            &&& t.bounds@ == w@.skip(3)
        },
{
    let len = w.len();
    if len < 4 || w[2] != (len - 4) as u64 || w[3] != 0 {
        return None;
    }
    let mut bounds: Vec<u64> = Vec::new();
    let mut i: usize = 3;
    while i < len
        invariant
            3 <= i <= len == w@.len(),
            w@[3] == 0,
            bounds@ == w@.subrange(3, i as int),
            forall|k: int| 3 <= k < i - 1 ==> #[trigger] w@[k] <= w@[k + 1],
        decreases len - i,
    {
        if i > 3 && w[i - 1] > w[i] {
            return None;
        }
        bounds.push(w[i]);
        i = i + 1;
        assert(bounds@ =~= w@.subrange(3, i as int));
    }
    assert(w@.subrange(3, len as int) =~= w@.skip(3));
    let t = ImageTable { base: w[0], step: w[1], bounds };
    assert forall|k: int| 0 <= k < t.bounds@.len() - 1 implies #[trigger] t.bounds@[k]
        <= t.bounds@[k + 1] by {
        assert(t.bounds@[k] == w@[k + 3]);
        assert(t.bounds@[k + 1] == w@[k + 4]);
    }
    Some(t)
}

/// Parsing the header of a table gives back the same base, step and label offsets.
pub proof fn lemma_header_round_trip(t: ImageTable)
    requires
        t.wf(),
        t.bounds@.len() <= usize::MAX,
    ensures
        header_ok(header_words_spec(t)),
        header_words_spec(t).skip(3) == t.bounds@,
        header_words_spec(t)[0] == t.base,
        header_words_spec(t)[1] == t.step,
{
    let w = header_words_spec(t);
    assert(w.skip(3) =~= t.bounds@);
    assert(w[2] == w.len() - 4);
    assert(w[3] == t.bounds@[0]);
    assert forall|i: int| 3 <= i < w.len() - 1 implies #[trigger] w[i] <= w[i + 1] by {
        assert(w[i] == t.bounds@[i - 3]);
        assert(w[i + 1] == t.bounds@[i - 2]);
    }
}

/// Writing the header of a table built for `sizes` and parsing it back yields labels that
/// count the programs and are exactly each program's size apart.
pub proof fn lemma_sizes_survive_header(sizes: Seq<u64>, t: ImageTable, back: ImageTable)
    requires
        t.wf(),
        t.lays_out(sizes),
        t.bounds@.len() <= usize::MAX,
        back.bounds@ == header_words_spec(t).skip(3),
    ensures
        back.count_spec() == sizes.len(),
        forall|i: int| 0 <= i < sizes.len() ==> #[trigger] back.size_spec(i) == sizes[i],
{
    lemma_header_round_trip(t);
    lemma_table_sizes(t, sizes);
    assert forall|i: int| 0 <= i < sizes.len() implies #[trigger] back.size_spec(i) == sizes[i] by {
        assert(t.size_spec(i) == sizes[i]);
    }
}

proof fn lemma_offset_monotone(sizes: Seq<u64>, i: int, j: int)
    requires
        0 <= i <= j <= sizes.len(),
    ensures
        offset(sizes, i) <= offset(sizes, j),
    decreases j - i,
{
    if i < j {
        lemma_offset_monotone(sizes, i, j - 1);
    }
}

/// The image table for programs of the given stripped sizes under placement `p`; `None` when
/// there is no program (nothing is packaged) or the programs together exceed 64-bit offsets.
pub fn image_table(p: Placement, sizes: &Vec<u64>) -> (r: Option<ImageTable>)
    ensures
        r.is_none() <==> sizes@.len() == 0 || offset(sizes@, sizes@.len() as int) > u64::MAX,
        r matches Some(t) ==> {
            &&& t.base == p.base
            &&& t.step == p.step
            &&& t.wf()
            &&& t.count_spec() == sizes@.len()
            &&& t.lays_out(sizes@)
        },
{
    if sizes.len() == 0 {
        return None;
    }
    let mut bounds: Vec<u64> = Vec::new();
    bounds.push(0);
    let mut end: u64 = 0;
    let mut i: usize = 0;
    while i < sizes.len()
        invariant
            i <= sizes@.len(),
            bounds@.len() == i + 1,
            end == offset(sizes@, i as int),
            forall|k: int| 0 <= k <= i ==> #[trigger] bounds@[k] == offset(sizes@, k),
        decreases sizes@.len() - i,
    {
        match end.checked_add(sizes[i]) {
            Some(e) => {
                end = e;
                bounds.push(e);
            },
            None => {
                proof {
                    lemma_offset_monotone(sizes@, i + 1, sizes@.len() as int);
                }
                return None;
            },
        }
        i = i + 1;
    }
    let t = ImageTable { base: p.base, step: p.step, bounds };
    proof {
        assert forall|k: int| 0 <= k < t.bounds@.len() - 1 implies #[trigger] t.bounds@[k]
            <= t.bounds@[k + 1] by {
            assert(t.bounds@[k + 1] == offset(sizes@, k + 1));
        }
    }
    Some(t)
}

/// Each program's labels are exactly its stripped size apart, and the table counts every
/// program.
pub proof fn lemma_table_sizes(t: ImageTable, sizes: Seq<u64>)
    requires
        t.lays_out(sizes),
    ensures
        t.count_spec() == sizes.len(),
        forall|i: int| 0 <= i < sizes.len() ==> #[trigger] t.size_spec(i) == sizes[i],
{
    assert forall|i: int| 0 <= i < sizes.len() implies #[trigger] t.size_spec(i) == sizes[i] by {
        assert(t.bounds@[i + 1] == offset(sizes, i + 1));
        assert(t.bounds@[i] == offset(sizes, i));
    }
}

/// Reading the sizes back from a table built for `sizes` gives `sizes` again.
pub proof fn lemma_sizes_round_trip(t: ImageTable, sizes: Seq<u64>, back: Seq<u64>)
    requires
        t.wf(),
        t.lays_out(sizes),
        back.len() == t.count_spec(),
        forall|i: int| 0 <= i < back.len() ==> #[trigger] back[i] == t.size_spec(i),
    ensures
        back == sizes,
{
    lemma_table_sizes(t, sizes);
    assert(back =~= sizes);
}

} // verus!
