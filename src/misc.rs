//! A stack of nested scratch segments over one backing array, and small byte
//! helpers.
use vstd::prelude::*;
use vstd::string::StringSliceAdditionalSpecFns;

verus! {

/// A collection that values can be appended to.
pub trait Push<T> {
    /// Whether a value can be appended now.
    spec fn ready(&self) -> bool;

    fn push(&mut self, value: T)
        requires
            old(self).ready(),
    ;
}

impl<T> Push<T> for Vec<T> {
    open spec fn ready(&self) -> bool {
        true
    }

    fn push(&mut self, value: T) {
        Vec::push(self, value);
    }
}

/// The owner of a backing array shared by nested segments.
pub struct SegVecRoot<T> {
    vec: Vec<T>,
    lent: bool,
}

impl<T> SegVecRoot<T> {
    /// What the backing array holds.
    pub closed spec fn contents(&self) -> Seq<T> {
        self.vec@
    }

    /// The backing array is held by a segment opened with `extend`.
    pub closed spec fn is_lent(&self) -> bool {
        self.lent
    }

    pub fn new() -> (r: SegVecRoot<T>)
        ensures
            r.contents() == Seq::<T>::empty(),
            !r.is_lent(),
    {
        SegVecRoot { vec: Vec::new(), lent: false }
    }

    /// Opens a segment at the end of the backing array. The array moves into the
    /// segment until it is handed back by `release`; meanwhile no other
    /// segment can be opened here.
    pub fn extend(&mut self) -> (r: SegVec<T>)
        requires
            !old(self).is_lent(),
        ensures
            r.wf(),
            r@ == Seq::<T>::empty(),
            r.below() == old(self).contents(),
            final(self).contents() == Seq::<T>::empty(),
            final(self).is_lent(),
    {
        let mut vec: Vec<T> = Vec::new();
        std::mem::swap(&mut vec, &mut self.vec);
        self.lent = true;
        SegVec::new(vec)
    }

    /// Closes `seg`: the backing array is cut back to where the segment began
    /// and returns to the root.
    pub fn release(&mut self, seg: SegVec<T>)
        requires
            old(self).is_lent(),
            seg.wf(),
        ensures
            final(self).contents() == seg.below(),
            !final(self).is_lent(),
    {
        self.vec = seg.close();
        self.lent = false;
    }
}

impl<T> Default for SegVecRoot<T> {
    fn default() -> (r: SegVecRoot<T>)
        ensures
            r.contents() == Seq::<T>::empty(),
            !r.is_lent(),
    {
        SegVecRoot::new()
    }
}

/// A segment of a backing array: the elements from `begin` to the end. What
/// lies before `begin` belongs to the enclosing segments and is never changed
/// through this one.
pub struct SegVec<T> {
    vec: Vec<T>,
    begin: usize,
    lent: bool,
}

impl<T> View for SegVec<T> {
    type V = Seq<T>;

    /// The elements of this segment.
    closed spec fn view(&self) -> Seq<T> {
        self.vec@.subrange(self.begin as int, self.vec@.len() as int)
    }
}

impl<T> SegVec<T> {
    /// The whole backing array, enclosing segments included.
    pub closed spec fn backing(&self) -> Seq<T> {
        self.vec@
    }

    /// The index in the backing array at which this segment begins.
    pub closed spec fn start(&self) -> nat {
        self.begin as nat
    }

    /// The backing array is held by a nested segment opened with `extend`.
    pub closed spec fn is_lent(&self) -> bool {
        self.lent
    }

    /// The segment holds the backing array, which reaches its start. A segment
    /// that has lent its array to a nested one is not well formed until the
    /// nested one is released.
    pub open spec fn wf(&self) -> bool {
        &&& !self.is_lent()
        &&& self.start() <= self.backing().len()
    }

    /// What the enclosing segments hold: the backing array before the start.
    pub open spec fn below(&self) -> Seq<T> {
        self.backing().subrange(0, self.start() as int)
    }

    pub proof fn lemma_backing(&self)
        requires
            self.wf(),
        ensures
            self.backing() == self.below() + self@,
            self@.len() == self.backing().len() - self.start(),
    {
        assert(self.backing() =~= self.below() + self@);
    }

    /// A segment that begins at the end of `vec`.
    pub fn new(vec: Vec<T>) -> (r: SegVec<T>)
        ensures
            r.wf(),
            r@ == Seq::<T>::empty(),
            r.below() == vec@,
    {
        let begin = vec.len();
        let r = SegVec { vec, begin, lent: false };
        assert(r.below() =~= vec@);
        assert(r@ =~= Seq::<T>::empty());
        r
    }

    /// Opens a nested segment after this one's elements. The backing array
    /// moves into the nested segment; this one is well formed again once the
    /// nested one is released into it.
    pub fn extend(&mut self) -> (r: SegVec<T>)
        requires
            old(self).wf(),
        ensures
            r.wf(),
            r@ == Seq::<T>::empty(),
            r.below() == old(self).backing(),
            final(self).start() == old(self).start(),
            final(self).is_lent(),
    {
        let mut vec: Vec<T> = Vec::new();
        std::mem::swap(&mut vec, &mut self.vec);
        self.lent = true;
        SegVec::new(vec)
    }

    /// Closes the nested segment `inner`, opened by `extend`: the backing array
    /// is cut back to where `inner` began and returns to this segment.
    pub fn release(&mut self, inner: SegVec<T>)
        requires
            old(self).is_lent(),
            inner.wf(),
        ensures
            final(self).backing() == inner.below(),
            final(self).start() == old(self).start(),
            !final(self).is_lent(),
    {
        self.vec = inner.close();
        self.lent = false;
    }

    /// Ends this segment and gives back the backing array without its elements.
    pub fn close(self) -> (r: Vec<T>)
        requires
            self.wf(),
        ensures
            r@ == self.below(),
    {
        let mut vec = self.vec;
        vec.truncate(self.begin);
        vec
    }

    pub fn push(&mut self, value: T)
        requires
            old(self).wf(),
        ensures
            final(self).wf(),
            final(self)@ == old(self)@.push(value),
            final(self).below() == old(self).below(),
            final(self).start() == old(self).start(),
    {
        proof {
            self.lemma_backing();
        }
        self.vec.push(value);
        proof {
            assert(self@ =~= old(self)@.push(value));
            assert(self.below() =~= old(self).below());
        }
    }

    /// Removes the last element if the segment has one.
    pub fn pop(&mut self) -> (r: Option<T>)
        requires
            old(self).wf(),
        ensures
            final(self).wf(),
            final(self).below() == old(self).below(),
            final(self).start() == old(self).start(),
            old(self)@.len() == 0 ==> r == None::<T> && final(self)@ == old(self)@,
            old(self)@.len() > 0 ==> r == Some(old(self)@.last()) && final(self)@
                == old(self)@.drop_last(),
    {
        proof {
            self.lemma_backing();
        }
        if self.begin < self.vec.len() {
            let r = self.vec.pop();
            proof {
                assert(self@ =~= old(self)@.drop_last());
                assert(self.below() =~= old(self).below());
            }
            r
        } else {
            None
        }
    }

    /// The elements of this segment, to be changed in place.
    pub fn as_mut_slice(&mut self) -> (r: &mut [T])
        requires
            old(self).wf(),
        ensures
            r@ == old(self)@,
            final(self).backing() == old(self).below() + final(r)@,
            final(self).start() == old(self).start(),
    {
        let begin = self.begin;
        let (_, tail) = self.vec.as_mut_slice().split_at_mut(begin);
        tail
    }

    /// Writes through `as_mut_slice` keep what lies below the segment: a
    /// segment whose backing array is `below()` followed by anything has the
    /// same `below()`.
    pub proof fn lemma_rewritten_keeps_below(&self, after: SegVec<T>, elements: Seq<T>)
        requires
            self.wf(),
            after.backing() == self.below() + elements,
            after.start() == self.start(),
        ensures
            after.below() == self.below(),
    {
        assert(after.below() =~= self.below());
    }

    /// Removes the element at `index` of the segment; the segment's last
    /// element takes its place.
    pub fn swap_remove(&mut self, index: usize) -> (r: T)
        requires
            old(self).wf(),
            index < old(self)@.len(),
        ensures
            final(self).wf(),
            r == old(self)@[index as int],
            final(self)@ == old(self)@.update(index as int, old(self)@.last()).drop_last(),
            final(self).below() == old(self).below(),
            final(self).start() == old(self).start(),
    {
        proof {
            self.lemma_backing();
        }
        let n = self.vec.len();
        assert(self.begin + index < n);
        let r = self.vec.swap_remove(self.begin + index);
        proof {
            assert(self@ =~= old(self)@.update(index as int, old(self)@.last()).drop_last());
            assert(self.below() =~= old(self).below());
        }
        r
    }

    pub fn len(&self) -> (r: usize)
        requires
            self.wf(),
        ensures
            r == self@.len(),
    {
        self.vec.len() - self.begin
    }

    /// The elements of this segment.
    pub fn as_slice(&self) -> (r: &[T])
        requires
            self.wf(),
        ensures
            r@ == self@,
    {
        let (_, tail) = self.vec.as_slice().split_at(self.begin);
        tail
    }

    pub fn is_empty(&self) -> (r: bool)
        requires
            self.wf(),
        ensures
            r == (self@.len() == 0),
    {
        self.len() == 0
    }
}

impl<T> Push<T> for SegVec<T> {
    /// A segment takes values while it is well formed.
    open spec fn ready(&self) -> bool {
        self.wf()
    }

    fn push(&mut self, value: T) {
        self.vec.push(value);
    }
}

/// Closing a nested segment gives the enclosing segment back exactly the
/// elements it had when the nested one was opened, whatever was done inside:
/// every operation on the nested segment leaves what lies below it unchanged.
pub proof fn lemma_release_restores_outer<T>(
    outer: SegVec<T>,
    inner: SegVec<T>,
    restored: SegVec<T>,
)
    requires
        outer.wf(),
        inner.below() == outer.backing(),
        restored.backing() == inner.below(),
        restored.start() == outer.start(),
        !restored.is_lent(),
    ensures
        restored.wf(),
        restored@ == outer@,
        restored.below() == outer.below(),
{
    outer.lemma_backing();
    assert(restored@ =~= outer@);
    assert(restored.below() =~= outer.below());
}

/// Whatever runs on a nested segment between its opening and its release
/// (pushes, pops, swap_removes, writes through `as_mut_slice`, and segments
/// nested in it in turn and released) keeps what lies below it, each step in
/// `run` as the operations' contracts say. So releasing it gives the enclosing
/// segment back exactly the elements it had when the nested one was opened.
/// A step through `as_mut_slice` keeps `below()` by
/// `lemma_rewritten_keeps_below`, and a nested segment opened and released by
/// `lemma_release_restores_outer`.
pub proof fn lemma_any_run_restores_outer<T>(outer: SegVec<T>, run: Seq<SegVec<T>>, restored: SegVec<T>)
    requires
        outer.wf(),
        run.len() > 0,
        run[0].below() == outer.backing(),
        forall|i: int| 0 <= i < run.len() - 1 ==> (#[trigger] run[i + 1]).below() == run[i].below(),
        restored.backing() == run.last().below(),
        restored.start() == outer.start(),
        !restored.is_lent(),
    ensures
        restored@ == outer@,
        restored.below() == outer.below(),
{
    lemma_run_keeps_below(run, run.len() - 1);
    lemma_release_restores_outer(outer, run.last(), restored);
}

proof fn lemma_run_keeps_below<T>(run: Seq<SegVec<T>>, k: int)
    requires
        0 <= k < run.len(),
        forall|i: int| 0 <= i < run.len() - 1 ==> (#[trigger] run[i + 1]).below() == run[i].below(),
    ensures
        run[k].below() == run[0].below(),
    decreases k,
{
    if k > 0 {
        lemma_run_keeps_below(run, k - 1);
        assert(run[(k - 1) + 1].below() == run[k - 1].below());
    }
}

/// The little-endian number that four bytes spell.
pub open spec fn u32_le(b0: u8, b1: u8, b2: u8, b3: u8) -> int {
    b0 + 256 * b1 + 65536 * b2 + 16777216 * b3
}

/// Reads a little-endian `u32` from the first four bytes of `bytes`; `None`
/// when there are fewer than four.
pub fn read_u32_le(bytes: &[u8]) -> (r: Option<u32>)
    ensures
        bytes@.len() < 4 ==> r is None,
        bytes@.len() >= 4 ==> r == Some(u32_le(bytes@[0], bytes@[1], bytes@[2], bytes@[3]) as u32),
{
    if bytes.len() < 4 {
        return None;
    }
    let value: u32 = bytes[0] as u32 + 256 * (bytes[1] as u32) + 65536 * (bytes[2] as u32)
        + 16777216 * (bytes[3] as u32);
    Some(value)
}

/// Appends the bytes of `s` to `out`.
pub fn push_str(out: &mut Vec<u8>, s: &str)
    ensures
        final(out)@ == old(out)@ + s.spec_bytes(),
{
    let bytes = s.as_bytes();
    let mut i: usize = 0;
    while i < bytes.len()
        invariant
            bytes@ == s.spec_bytes(),
            i <= bytes@.len(),
            out@ == old(out)@ + bytes@.subrange(0, i as int),
        decreases bytes@.len() - i,
    {
        out.push(bytes[i]);
        i = i + 1;
        assert(out@ =~= old(out)@ + bytes@.subrange(0, i as int));
    }
    assert(bytes@.subrange(0, i as int) =~= bytes@);
}

} // verus!
