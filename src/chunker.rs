//! Splitting a string into equal-size pieces, left to right.
use vstd::prelude::*;

verus! {

/// The pieces of `s` of length `k`, in order; a trailing remainder shorter
/// than `k` is dropped. A size of zero gives no pieces.
pub open spec fn chunks_of(s: Seq<char>, k: nat) -> Seq<Seq<char>> {
    if k == 0 {
        Seq::empty()
    } else {
        Seq::new(s.len() / k, |i: int| chunk_at(s, k, i))
    }
}

/// The `i`-th piece of length `k` of `s`.
pub open spec fn chunk_at(s: Seq<char>, k: nat, i: int) -> Seq<char> {
    s.subrange(i * k, i * k + k)
}

proof fn lemma_prefix_flatten(s: Seq<char>, k: nat, m: nat)
    requires
        k > 0,
        m <= s.len() / k,
    ensures
        Seq::new(m, |i: int| chunk_at(s, k, i)).flatten_alt() == s.subrange(0, (m * k) as int),
    decreases m,
{
    let c = Seq::new(m, |i: int| chunk_at(s, k, i));
    if m == 0 {
        assert(s.subrange(0, 0) =~= Seq::<char>::empty());
    } else {
        let p = (m - 1) as nat;
        lemma_prefix_flatten(s, k, p);
        assert(c.drop_last() =~= Seq::new(p, |i: int| chunk_at(s, k, i)));
        assert(p * k + k == m * k && m * k <= s.len()) by (nonlinear_arith)
            requires
                p + 1 == m,
                m <= s.len() / k,
                k > 0,
        ;
        let q = (p * k) as int;
        assert(s.subrange(0, q) + s.subrange(q, q + k) =~= s.subrange(0, (m * k) as int));
    }
}

/// Cutting a string of length `n` into pieces of size `k > 0` gives `n / k`
/// pieces of length `k` which, joined in order, give back the first
/// `k * (n / k)` characters: only a remainder shorter than `k` is dropped.
pub proof fn lemma_chunks_cover(s: Seq<char>, k: nat)
    requires
        k > 0,
    ensures
        chunks_of(s, k).len() == s.len() / k,
        forall|i: int| 0 <= i < chunks_of(s, k).len() ==> (#[trigger] chunks_of(s, k)[i]).len() == k,
        chunks_of(s, k).flatten() == s.subrange(0, (k * (s.len() / k)) as int),
{
    let c = chunks_of(s, k);
    assert forall|i: int| 0 <= i < c.len() implies (#[trigger] c[i]).len() == k by {
        assert(i * k + k <= s.len()) by (nonlinear_arith)
            requires
                0 <= i < s.len() / k,
                k > 0,
        ;
    }
    lemma_prefix_flatten(s, k, s.len() / k);
    c.lemma_flatten_and_flatten_alt_are_equivalent();
    assert(k * (s.len() / k) == (s.len() / k) * k) by (nonlinear_arith);
}

/// A finite sequence of chunks that is consumed front to back.
pub struct Chunker {
    chunks: Vec<String>,
    next: usize,
}

impl View for Chunker {
    type V = Seq<Seq<char>>;

    /// The chunks not yet handed out, next one first.
    closed spec fn view(&self) -> Seq<Seq<char>> {
        Seq::new(
            (self.chunks@.len() - self.next) as nat,
            |i: int| self.chunks@[self.next + i]@,
        )
    }
}

impl Chunker {
    pub closed spec fn wf(&self) -> bool {
        self.next <= self.chunks@.len()
    }

    /// Cuts `string` into chunks of `chunk_size` characters.
    pub fn new(string: &str, chunk_size: usize) -> (r: Chunker)
        ensures
            r.wf(),
            r@ == chunks_of(string@, chunk_size as nat),
    {
        let n = string.unicode_len();
        let mut chunks: Vec<String> = Vec::new();
        if chunk_size > 0 {
            let count = n / chunk_size;
            let k = chunk_size;
            let mut i: usize = 0;
            while i < count
                invariant
                    i <= count,
                    count == n / k,
                    n == string@.len(),
                    k > 0,
                    chunks@.len() == i,
                    forall|j: int|
                        0 <= j < i ==> #[trigger] chunks@[j]@ == string@.subrange(
                            j * k,
                            j * k + k,
                        ),
                decreases count - i,
            {
                assert(i * k + k <= n) by (nonlinear_arith)
                    requires
                        i < count,
                        count == n / k,
                        k > 0,
                ;
                let start = i * k;
                let piece = string.substring_char(start, start + k).to_owned();
                chunks.push(piece);
                i = i + 1;
            }
        }
        let r = Chunker { chunks, next: 0 };
        assert(r@ =~= chunks_of(string@, chunk_size as nat));
        r
    }

    /// Hands out the next chunk, or `None` once all have been handed out.
    pub fn next(&mut self) -> (r: Option<String>)
        requires
            old(self).wf(),
        ensures
            final(self).wf(),
            old(self)@.len() == 0 ==> r is None && final(self)@ == old(self)@,
            old(self)@.len() > 0 ==> r is Some && r->0@ == old(self)@[0] && final(self)@
                == old(self)@.drop_first(),
    {
        if self.next < self.chunks.len() {
            let piece = self.chunks[self.next].clone();
            self.next = self.next + 1;
            assert(self@ =~= old(self)@.drop_first());
            Some(piece)
        } else {
            None
        }
    }
}

} // verus!
