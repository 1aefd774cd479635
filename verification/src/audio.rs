//! Cutting the stream of captured samples into frames of a fixed length.
use vstd::prelude::*;

verus! {

/// The frames, concatenated.
pub open spec fn concat_frames<T>(frames: Seq<Vec<T>>) -> Seq<T> {
    frames.map_values(|f: Vec<T>| f@).flatten()
}

/// Collects samples as the audio device delivers them and hands out
/// complete frames of `frame_len` samples each.
pub struct FrameBuffer<T> {
    pending: Vec<T>,
    frame_len: usize,
}

impl<T> FrameBuffer<T> {
    #[verifier::type_invariant]
    spec fn inv(self) -> bool {
        &&& self.frame_len > 0
        &&& self.pending@.len() < self.frame_len
    }

    /// The samples received that do not yet fill a frame.
    pub closed spec fn pending(&self) -> Seq<T> {
        self.pending@
    }

    /// The number of samples in a frame.
    pub closed spec fn frame_len(&self) -> nat {
        self.frame_len as nat
    }

}

impl<T: Copy> FrameBuffer<T> {
    /// An empty buffer for frames of `frame_len` samples.
    pub fn new(frame_len: usize) -> (r: Self)
        requires
            frame_len > 0,
        ensures
            r.frame_len() == frame_len,
            r.pending() == Seq::<T>::empty(),
    {
        FrameBuffer { pending: Vec::new(), frame_len }
    }

    /// Adds `data` and returns the frames it completes, oldest first. No
    /// sample is lost, repeated or reordered: the frames followed by what
    /// stays pending are the samples pending before followed by `data`.
    pub fn push(&mut self, data: &[T]) -> (frames: Vec<Vec<T>>)
        ensures
            final(self).frame_len() == old(self).frame_len(),
            forall|k: int| 0 <= k < frames.len() ==> #[trigger] frames@[k]@.len() == old(self).frame_len(),
            final(self).pending().len() < final(self).frame_len(),
            concat_frames(frames@) + final(self).pending() == old(self).pending() + data@,
    {
        proof {
            use_type_invariant(&*self);
        }
        let mut pending: Vec<T> = Vec::new();
        std::mem::swap(&mut pending, &mut self.pending);
        let ghost start = pending@;
        let n = self.frame_len;
        let mut frames: Vec<Vec<T>> = Vec::new();
        let mut i: usize = 0;
        assert(concat_frames(frames@) =~= Seq::<T>::empty());
        assert(data@.subrange(0, 0) =~= Seq::<T>::empty());
        while i < data.len()
            invariant
                n == self.frame_len,
                n > 0,
                i <= data.len(),
                pending@.len() < n,
                forall|k: int| 0 <= k < frames.len() ==> #[trigger] frames@[k]@.len() == n,
                concat_frames(frames@) + pending@ == start + data@.subrange(0, i as int),
            decreases data.len() - i,
        {
            let ghost before = concat_frames(frames@) + pending@;
            pending.push(data[i]);
            assert(data@.subrange(0, i + 1) =~= data@.subrange(0, i as int).push(data@[i as int]));
            assert(concat_frames(frames@) + pending@ =~= before.push(data@[i as int]));
            if pending.len() == n {
                let ghost old_frames = frames@;
                let mut full: Vec<T> = Vec::new();
                std::mem::swap(&mut full, &mut pending);
                frames.push(full);
                proof {
                    let f = |v: Vec<T>| v@;
                    old_frames.map_values(f).lemma_flatten_push(full@);
                    assert(frames@.map_values(f) =~= old_frames.map_values(f).push(full@));
                    assert(concat_frames(frames@) + pending@ =~= concat_frames(old_frames) + full@);
                    assert forall|k: int| 0 <= k < frames.len() implies #[trigger] frames@[k]@.len() == n by {
                        if k < old_frames.len() {
                            assert(frames@[k] == old_frames[k]);
                        }
                    }
                }
            }
            i = i + 1;
        }
        assert(data@.subrange(0, data.len() as int) =~= data@);
        self.pending = pending;
        frames
    }
}

} // verus!
