//! Animation timing: a frame sequence with per-frame durations.  A
//! lookup takes the time modulo the total duration and returns the frame
//! whose cumulative window contains it.  An animation with no frame (or
//! no duration at all) cannot answer any lookup and is rejected when it
//! is built, as the content error it is.

use vstd::prelude::*;

verus! {

/// An animation whose frames never cover any instant.
#[derive(Clone, Copy, PartialEq, Eq, Structural, Debug)]
pub enum AnimationError {
    EmptyAnimation,
}

/// A frame sequence: `frames[i]` is the duration of frame `i` in
/// milliseconds, and `total_length` their sum.
#[derive(Clone, Debug)]
pub struct Animation {
    pub frames: Vec<u32>,
    pub total_length: u32,
}

/// The sum of the durations.
pub open spec fn sum_durations(s: Seq<u32>) -> int
    decreases s.len(),
{
    if s.len() == 0 {
        0
    } else {
        s[0] + sum_durations(s.subrange(1, s.len() as int))
    }
}

/// The frame whose cumulative duration window contains `t`.
pub open spec fn frame_index_spec(s: Seq<u32>, t: int) -> int
    decreases s.len(),
{
    if s.len() == 0 {
        0
    } else if t < s[0] {
        0
    } else {
        1 + frame_index_spec(s.subrange(1, s.len() as int), t - s[0])
    }
}

impl Animation {
    pub open spec fn wf(self) -> bool {
        &&& self.total_length == sum_durations(self.frames@)
        &&& self.total_length > 0
    }

    /// Builds an animation from its frame durations; a frame list that
    /// covers no time at all is a content error.
    pub fn new(frames: Vec<u32>) -> (r: Result<Animation, AnimationError>)
        requires
            sum_durations(frames@) <= u32::MAX,
        ensures
            match r {
                Result::Ok(anim) => {
                    &&& anim.wf()
                    &&& anim.frames == frames
                    &&& sum_durations(frames@) > 0
                },
                Result::Err(e) => {
                    &&& e == AnimationError::EmptyAnimation
                    &&& sum_durations(frames@) == 0
                },
            },
    {
        let n = frames.len();
        let mut total: u32 = 0;
        let mut i: usize = 0;
        proof {
            lemma_sum_split(frames@, 0);
        }
        while i < n
            invariant
                n == frames@.len(),
                i <= n,
                sum_durations(frames@) <= u32::MAX,
                total == sum_durations(frames@.subrange(0, i as int)),
                sum_durations(frames@) == total + sum_durations(
                    frames@.subrange(i as int, n as int),
                ),
            decreases n - i,
        {
            proof {
                lemma_sum_split(frames@, i as int + 1);
                lemma_sum_first(frames@.subrange(i as int, n as int));
                assert(frames@.subrange(i as int, n as int).subrange(
                    1,
                    frames@.subrange(i as int, n as int).len() as int,
                ) =~= frames@.subrange(i as int + 1, n as int));
                lemma_sum_nonneg(frames@.subrange(i as int + 1, n as int));
            }
            total = total + frames[i];
            i = i + 1;
        }
        proof {
            assert(frames@.subrange(0, n as int) =~= frames@);
        }
        if total == 0 {
            Err(AnimationError::EmptyAnimation)
        } else {
            Ok(Animation { frames, total_length: total })
        }
    }

    /// The frame shown at `time`: time wraps around the total duration,
    /// and the frame whose window contains the wrapped instant answers.
    pub fn get_at_time(&self, time: u32) -> (idx: usize)
        requires
            self.wf(),
        ensures
            idx == frame_index_spec(self.frames@, (time as int) % (self.total_length as int)),
            idx < self.frames@.len(),
    {
        let mut t = time % self.total_length;
        let n = self.frames.len();
        let mut i: usize = 0;
        proof {
            lemma_sum_nonneg(self.frames@);
            assert(self.frames@.subrange(0, n as int) =~= self.frames@);
        }
        while i < n
            invariant
                n == self.frames@.len(),
                i <= n,
                self.wf(),
                0 <= t,
                t < sum_durations(self.frames@.subrange(i as int, n as int)),
                frame_index_spec(self.frames@, (time as int) % (self.total_length as int)) == i
                    + frame_index_spec(self.frames@.subrange(i as int, n as int), t as int),
            decreases n - i,
        {
            let d = self.frames[i];
            proof {
                lemma_sum_first(self.frames@.subrange(i as int, n as int));
                assert(self.frames@.subrange(i as int, n as int).subrange(
                    1,
                    self.frames@.subrange(i as int, n as int).len() as int,
                ) =~= self.frames@.subrange(i as int + 1, n as int));
            }
            if t < d {
                return i;
            }
            t = t - d;
            i = i + 1;
        }
        proof {
            assert(self.frames@.subrange(n as int, n as int) =~= Seq::<u32>::empty());
            assert(false);
        }
        0
    }
}

proof fn lemma_sum_nonneg(s: Seq<u32>)
    ensures
        sum_durations(s) >= 0,
    decreases s.len(),
{
    if s.len() > 0 {
        lemma_sum_nonneg(s.subrange(1, s.len() as int));
    }
}

/// The sum splits around any cut point.
proof fn lemma_sum_split(s: Seq<u32>, i: int)
    requires
        0 <= i <= s.len(),
    ensures
        sum_durations(s) == sum_durations(s.subrange(0, i)) + sum_durations(
            s.subrange(i, s.len() as int),
        ),
    decreases i,
{
    if i == 0 {
        assert(s.subrange(0, 0) =~= Seq::<u32>::empty());
        assert(s.subrange(0, s.len() as int) =~= s);
    } else {
        lemma_sum_first(s);
        let tail = s.subrange(1, s.len() as int);
        lemma_sum_split(tail, i - 1);
        assert(tail.subrange(0, i - 1) =~= s.subrange(0, i).subrange(
            1,
            s.subrange(0, i).len() as int,
        ));
        assert(tail.subrange(i - 1, tail.len() as int) =~= s.subrange(i, s.len() as int));
        lemma_sum_first(s.subrange(0, i));
        assert(s.subrange(0, i)[0] == s[0]);
    }
}

/// Unfolding the sum at the front.
proof fn lemma_sum_first(s: Seq<u32>)
    requires
        s.len() > 0,
    ensures
        sum_durations(s) == s[0] + sum_durations(s.subrange(1, s.len() as int)),
{
}

} // verus!
